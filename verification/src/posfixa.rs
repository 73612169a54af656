//! What the compilation of an expression gives: for an expression whose
//! operators are the generator's, written with `*` and `/` binding tighter
//! than the other operators and every operator grouping to the left, the
//! code is the expression in postfix order, and the stack of operators
//! comes back as it was.
use vstd::prelude::*;
use crate::gerador_mepa::{
    Traducao, eh_fechamento, eh_operador, expressao_spec, fecha, instrucao_spec, opera, passo_expr,
    prioridade_entrada, prioridade_pilha, procura_var_spec, traduz,
};
use crate::gerador_mepa::{ErroGeracao, Estado};
use crate::salva_gerador::{
    entrada_simples, fecha_simples, instrucao_simples, opera_simples, operador_simples, passo_simples,
    pilha_simples, traduz_simples, traduz_simples_em,
};
use crate::texto::{decimal, minusculas};
use crate::tokens::Tokens;

verus! {

/// An expression as a tree: a constant or a variable; an expression in
/// brackets; or an operator between two expressions.
pub enum ArvoreExpr {
    Folha((Seq<char>, Tokens)),
    Parenteses(Box<ArvoreExpr>),
    Binaria(Box<ArvoreExpr>, (Seq<char>, Tokens), Box<ArvoreExpr>),
}

/// The symbols that write an expression, brackets as `(` and `)`.
pub open spec fn simbolos_expr(x: ArvoreExpr) -> Seq<(Seq<char>, Tokens)>
    decreases x,
{
    match x {
        ArvoreExpr::Folha(s) => seq![s],
        ArvoreExpr::Parenteses(y) => seq![("("@, Tokens::AbreParenteses)] + simbolos_expr(*y) + seq![
            (")"@, Tokens::FechaParenteses),
        ],
        ArvoreExpr::Binaria(l, o, r) => simbolos_expr(*l) + seq![o] + simbolos_expr(*r),
    }
}

/// The instruction that loads a constant or a variable.
pub open spec fn carga(s: (Seq<char>, Tokens), vars: Seq<(Seq<char>, i32)>) -> Seq<char> {
    if s.1 == Tokens::True {
        "CRCT 1"@
    } else if s.1 == Tokens::False {
        "CRCT 0"@
    } else if s.1 == Tokens::Numero {
        "CRCT "@ + s.0
    } else {
        "CRVL "@ + decimal(procura_var_spec(vars, s.0) as int)
    }
}

/// The code of an expression in postfix order: the operands' code, then
/// the operator's instruction.
pub open spec fn posfixa(x: ArvoreExpr, vars: Seq<(Seq<char>, i32)>) -> Seq<Seq<char>>
    decreases x,
{
    match x {
        ArvoreExpr::Folha(s) => seq![carga(s, vars)],
        ArvoreExpr::Parenteses(y) => posfixa(*y, vars),
        ArvoreExpr::Binaria(l, o, r) => posfixa(*l, vars) + posfixa(*r, vars) + seq![instrucao_spec(o.0)],
    }
}

/// The level of an operator: the priority of its lowercase text on the
/// stack.
pub open spec fn nivel_op(o: Seq<char>) -> int {
    prioridade_pilha(minusculas(o))
}

/// The level of an expression: that of its operator; 3 for a constant, a
/// variable or brackets.
pub open spec fn nivel(x: ArvoreExpr) -> int {
    match x {
        ArvoreExpr::Binaria(_, o, _) => nivel_op(o.0),
        _ => 3,
    }
}

/// An operator of the generator whose lowercase text is one of its
/// operators: `*` and `/` at level 2, the others at level 1, with the same
/// priority coming in as on the stack.
pub open spec fn operador_valido(o: (Seq<char>, Tokens)) -> bool {
    &&& eh_operador(o.1)
    &&& 1 <= nivel_op(o.0) <= 2
    &&& prioridade_entrada(minusculas(o.0)) == nivel_op(o.0)
}

/// An expression written without brackets where the levels say how it
/// groups: an operator's left operand is of its level or higher (operators
/// group to the left), its right operand of a higher level; the leaves are
/// constants and variables.
pub open spec fn bem_formada(x: ArvoreExpr) -> bool
    decreases x,
{
    match x {
        ArvoreExpr::Folha(s) => s.1 == Tokens::True || s.1 == Tokens::False || s.1 == Tokens::Numero || s.1
            == Tokens::Identificador,
        ArvoreExpr::Parenteses(y) => bem_formada(*y),
        ArvoreExpr::Binaria(l, o, r) => {
            &&& operador_valido(o)
            &&& bem_formada(*l)
            &&& bem_formada(*r)
            &&& nivel(*l) >= nivel_op(o.0)
            &&& nivel(*r) > nivel_op(o.0)
        },
    }
}

/// The operators still on the stack after an expression is read: those
/// down its right side.
pub open spec fn pendentes(x: ArvoreExpr) -> Seq<Seq<char>>
    decreases x,
{
    match x {
        ArvoreExpr::Binaria(_, o, r) => seq![o.0] + pendentes(*r),
        _ => Seq::empty(),
    }
}

/// The code written once an expression is read, before its pending
/// operators leave the stack.
pub open spec fn emitido(x: ArvoreExpr, vars: Seq<(Seq<char>, i32)>) -> Seq<Seq<char>>
    decreases x,
{
    match x {
        ArvoreExpr::Folha(s) => seq![carga(s, vars)],
        ArvoreExpr::Parenteses(y) => posfixa(*y, vars),
        ArvoreExpr::Binaria(l, o, r) => posfixa(*l, vars) + emitido(*r, vars),
    }
}

/// The instructions of operators leaving the stack, the top one first.
pub open spec fn esvazia(p: Seq<Seq<char>>) -> Seq<Seq<char>>
    decreases p.len(),
{
    if p.len() == 0 {
        Seq::empty()
    } else {
        seq![instrucao_spec(p.last())] + esvazia(p.drop_last())
    }
}

/// An operator below others leaves the stack after them.
proof fn lemma_esvazia_base(o: Seq<char>, p: Seq<Seq<char>>)
    ensures
        esvazia(seq![o] + p) == esvazia(p) + seq![instrucao_spec(o)],
    decreases p.len(),
{
    if p.len() == 0 {
        assert((seq![o] + p).drop_last() =~= Seq::<Seq<char>>::empty());
        assert((seq![o] + p).last() == o);
        assert(esvazia(Seq::<Seq<char>>::empty()) == Seq::<Seq<char>>::empty());
        assert(esvazia(seq![o] + p) =~= seq![instrucao_spec(o)]);
    } else {
        assert((seq![o] + p).drop_last() =~= seq![o] + p.drop_last());
        lemma_esvazia_base(o, p.drop_last());
        assert(esvazia(seq![o] + p) =~= esvazia(p) + seq![instrucao_spec(o)]);
    }
}

/// The pending operators of a well-formed expression are operators of its
/// level or higher, and of level 1 or 2.
proof fn lemma_pendentes(x: ArvoreExpr)
    requires
        bem_formada(x),
    ensures
        forall|i: int|
            0 <= i < pendentes(x).len() ==> nivel_op(#[trigger] pendentes(x)[i]) >= nivel(x) && 1 <= nivel_op(
                pendentes(x)[i],
            ) <= 2,
        1 <= nivel(x),
    decreases x,
{
    if let ArvoreExpr::Binaria(l, o, r) = x {
        lemma_pendentes(*r);
        assert forall|i: int| 0 <= i < pendentes(x).len() implies nivel_op(#[trigger] pendentes(x)[i]) >= nivel(x)
            && 1 <= nivel_op(pendentes(x)[i]) <= 2 by {
            if i > 0 {
                assert(pendentes(x)[i] == pendentes(*r)[i - 1]);
            }
        }
    }
}

/// The code of an expression is what is written as it is read, then the
/// instructions of its pending operators.
proof fn lemma_posfixa(x: ArvoreExpr, vars: Seq<(Seq<char>, i32)>)
    ensures
        posfixa(x, vars) == emitido(x, vars) + esvazia(pendentes(x)),
    decreases x,
{
    match x {
        ArvoreExpr::Binaria(l, o, r) => {
            lemma_posfixa(*r, vars);
            lemma_esvazia_base(o.0, pendentes(*r));
            assert(posfixa(x, vars) =~= emitido(x, vars) + esvazia(pendentes(x)));
        },
        _ => {
            assert(esvazia(pendentes(x)) =~= Seq::<Seq<char>>::empty());
            assert(posfixa(x, vars) =~= emitido(x, vars) + esvazia(pendentes(x)));
        },
    }
}

/// Reading two runs of symbols is reading the first, then the second.
proof fn lemma_traduz_concat(
    t: Traducao,
    a: Seq<(Seq<char>, Tokens)>,
    b: Seq<(Seq<char>, Tokens)>,
    vars: Seq<(Seq<char>, i32)>,
)
    ensures
        traduz(t, a + b, vars) == match traduz(t, a, vars) {
            None => None,
            Some(t2) => traduz(t2, b, vars),
        },
    decreases b.len(),
{
    if b.len() == 0 {
        assert(a + b =~= a);
    } else {
        assert((a + b).drop_last() =~= a + b.drop_last());
        assert((a + b).last() == b.last());
        lemma_traduz_concat(t, a, b.drop_last(), vars);
    }
}

/// Reading one symbol is one step.
proof fn lemma_traduz_um(t: Traducao, s: (Seq<char>, Tokens), vars: Seq<(Seq<char>, i32)>)
    ensures
        traduz(t, seq![s], vars) == passo_expr(t, s, vars),
{
    assert(seq![s].drop_last() =~= Seq::<(Seq<char>, Tokens)>::empty());
    assert(seq![s].last() == s);
    assert(traduz(t, Seq::<(Seq<char>, Tokens)>::empty(), vars) == Some(t));
}

/// An operator coming in over pending operators of its level or higher,
/// above a symbol of a lower level: they leave the stack, top first, and
/// it goes on.
proof fn lemma_opera(c: Seq<Seq<char>>, s: Seq<Seq<char>>, p: Seq<Seq<char>>, o: Seq<char>)
    requires
        s.len() > 0,
        prioridade_pilha(minusculas(s.last())) < prioridade_entrada(minusculas(o)),
        forall|i: int| 0 <= i < p.len() ==> prioridade_pilha(minusculas(#[trigger] p[i])) >= prioridade_entrada(minusculas(o)),
    ensures
        opera(Traducao { codigo: c, pilha: s + p }, o) == Some(Traducao { codigo: c + esvazia(p), pilha: s.push(o) }),
    decreases p.len(),
{
    if p.len() == 0 {
        assert(s + p =~= s);
        assert(c + esvazia(p) =~= c);
    } else {
        assert((s + p).last() == p.last());
        assert((s + p).drop_last() =~= s + p.drop_last());
        assert(p.last() == p[p.len() - 1]);
        lemma_opera(c.push(instrucao_spec(p.last())), s, p.drop_last(), o);
        assert(c.push(instrucao_spec(p.last())) + esvazia(p.drop_last()) =~= c + esvazia(p));
    }
}

/// A closing symbol over pending operators above a `(`: they leave the
/// stack, top first, and so does the `(`.
proof fn lemma_fecha(c: Seq<Seq<char>>, s: Seq<Seq<char>>, p: Seq<Seq<char>>)
    requires
        s.len() > 0,
        s.last() == "("@,
        forall|i: int| 0 <= i < p.len() ==> #[trigger] p[i] != "("@,
    ensures
        fecha(Traducao { codigo: c, pilha: s + p }) == Some(Traducao { codigo: c + esvazia(p), pilha: s.drop_last() }),
    decreases p.len(),
{
    if p.len() == 0 {
        assert(s + p =~= s);
        assert(c + esvazia(p) =~= c);
    } else {
        assert((s + p).last() == p.last());
        assert((s + p).drop_last() =~= s + p.drop_last());
        assert(p.last() == p[p.len() - 1]);
        lemma_fecha(c.push(instrucao_spec(p.last())), s, p.drop_last());
        assert(c.push(instrucao_spec(p.last())) + esvazia(p.drop_last()) =~= c + esvazia(p));
    }
}

/// Reading a well-formed expression over a stack whose top is of a lower
/// level writes what it writes as it is read and leaves its pending
/// operators on the stack.
proof fn lemma_processa(x: ArvoreExpr, c: Seq<Seq<char>>, s: Seq<Seq<char>>, vars: Seq<(Seq<char>, i32)>)
    requires
        minusculas("("@) == "("@,
        bem_formada(x),
        s.len() > 0,
        prioridade_pilha(minusculas(s.last())) < nivel(x),
    ensures
        traduz(Traducao { codigo: c, pilha: s }, simbolos_expr(x), vars) == Some(
            Traducao { codigo: c + emitido(x, vars), pilha: s + pendentes(x) },
        ),
    decreases x,
{
    let t = Traducao { codigo: c, pilha: s };
    match x {
        ArvoreExpr::Folha(a) => {
            lemma_traduz_um(t, a, vars);
            assert(s + pendentes(x) =~= s);
            assert(c.push(carga(a, vars)) =~= c + emitido(x, vars));
        },
        ArvoreExpr::Parenteses(y) => {
            let abre = ("("@, Tokens::AbreParenteses);
            let fechap = (")"@, Tokens::FechaParenteses);
            let s1 = s.push("("@);
            lemma_pendentes(*y);
            assert(simbolos_expr(x) == seq![abre] + simbolos_expr(*y) + seq![fechap]);
            lemma_traduz_concat(t, seq![abre] + simbolos_expr(*y), seq![fechap], vars);
            lemma_traduz_concat(t, seq![abre], simbolos_expr(*y), vars);
            lemma_traduz_um(t, abre, vars);
            assert(s1.last() == "("@);
            lemma_processa(*y, c, s1, vars);
            let t2 = Traducao { codigo: c + emitido(*y, vars), pilha: s1 + pendentes(*y) };
            lemma_traduz_um(t2, fechap, vars);
            assert forall|i: int| 0 <= i < pendentes(*y).len() implies #[trigger] pendentes(*y)[i] != "("@ by {
                assert(1 <= nivel_op(pendentes(*y)[i]));
            }
            lemma_fecha(c + emitido(*y, vars), s1, pendentes(*y));
            lemma_posfixa(*y, vars);
            assert(s1.drop_last() =~= s);
            assert(s + pendentes(x) =~= s);
            assert(c + emitido(*y, vars) + esvazia(pendentes(*y)) =~= c + emitido(x, vars));
        },
        ArvoreExpr::Binaria(l, o, r) => {
            lemma_pendentes(*l);
            lemma_pendentes(*r);
            assert(simbolos_expr(x) == simbolos_expr(*l) + seq![o] + simbolos_expr(*r));
            lemma_traduz_concat(t, simbolos_expr(*l) + seq![o], simbolos_expr(*r), vars);
            lemma_traduz_concat(t, simbolos_expr(*l), seq![o], vars);
            lemma_processa(*l, c, s, vars);
            let t1 = Traducao { codigo: c + emitido(*l, vars), pilha: s + pendentes(*l) };
            lemma_traduz_um(t1, o, vars);
            lemma_opera(c + emitido(*l, vars), s, pendentes(*l), o.0);
            lemma_posfixa(*l, vars);
            let s2 = s.push(o.0);
            assert(c + emitido(*l, vars) + esvazia(pendentes(*l)) =~= c + posfixa(*l, vars));
            assert(s2.last() == o.0);
            lemma_processa(*r, c + posfixa(*l, vars), s2, vars);
            assert(c + posfixa(*l, vars) + emitido(*r, vars) =~= c + emitido(x, vars));
            assert(s2 + pendentes(*r) =~= s + pendentes(x));
        },
    }
}

/// The compilation of an expression followed by a closing symbol, where the
/// lowercase of `(` is `(` (as `para_minusculas` gives for ASCII text):
/// for an expression whose operators are the generator's, written with `*`
/// and `/` binding tighter than the other operators and every operator
/// grouping to the left, the code written is the expression in postfix
/// order, and the stack of operators comes back as it was.
pub proof fn lei_expressao_posfixa(
    t: Traducao,
    x: ArvoreExpr,
    fim: (Seq<char>, Tokens),
    vars: Seq<(Seq<char>, i32)>,
)
    requires
        minusculas("("@) == "("@,
        bem_formada(x),
        eh_fechamento(fim.1),
    ensures
        expressao_spec(t, simbolos_expr(x).push(fim), vars) == Some(
            Traducao { codigo: t.codigo + posfixa(x, vars), pilha: t.pilha },
        ),
{
    let s1 = t.pilha.push("("@);
    let t0 = Traducao { codigo: t.codigo, pilha: s1 };
    lemma_pendentes(x);
    assert(simbolos_expr(x).push(fim) =~= simbolos_expr(x) + seq![fim]);
    lemma_traduz_concat(t0, simbolos_expr(x), seq![fim], vars);
    assert(s1.last() == "("@);
    lemma_processa(x, t.codigo, s1, vars);
    let t2 = Traducao { codigo: t.codigo + emitido(x, vars), pilha: s1 + pendentes(x) };
    lemma_traduz_um(t2, fim, vars);
    assert forall|i: int| 0 <= i < pendentes(x).len() implies #[trigger] pendentes(x)[i] != "("@ by {
        assert(1 <= nivel_op(pendentes(x)[i]));
    }
    lemma_fecha(t.codigo + emitido(x, vars), s1, pendentes(x));
    lemma_posfixa(x, vars);
    assert(s1.drop_last() =~= t.pilha);
    assert(t.codigo + emitido(x, vars) + esvazia(pendentes(x)) =~= t.codigo + posfixa(x, vars));
}


/// The operators of expressions, as a fixed table: for each kind of token,
/// its text, its MEPA instruction and its level (`*` and `/` bind tighter
/// than the rest).
pub open spec fn operador_da_lista(k: Tokens) -> Option<(Seq<char>, Seq<char>, int)> {
    match k {
        Tokens::Mais => Some(("+"@, "SOMA"@, 1int)),
        Tokens::Menos => Some(("-"@, "SUBT"@, 1int)),
        Tokens::Multiplicacao => Some(("*"@, "MULT"@, 2int)),
        Tokens::Divisao => Some(("/"@, "DIVI"@, 2int)),
        Tokens::Igual => Some(("="@, "CMIG"@, 1int)),
        Tokens::Diferente => Some(("<>"@, "CMDG"@, 1int)),
        Tokens::Menor => Some(("<"@, "CMME"@, 1int)),
        Tokens::MenorIgual => Some(("<="@, "CMEG"@, 1int)),
        Tokens::Maior => Some((">"@, "CMMA"@, 1int)),
        Tokens::MaiorIgual => Some((">="@, "CMAG"@, 1int)),
        Tokens::And => Some(("and"@, "CONJ"@, 1int)),
        _ => None,
    }
}

/// The texts of the table's operators and `(` are their own lowercase (as
/// `para_minusculas` gives for ASCII text).
pub open spec fn minusculas_fixas() -> bool {
    minusculas("("@) == "("@ && minusculas("+"@) == "+"@ && minusculas("-"@) == "-"@ && minusculas("*"@) == "*"@ && minusculas("/"@) == "/"@ && minusculas("="@) == "="@ && minusculas("<>"@) == "<>"@ && minusculas("<"@) == "<"@ && minusculas("<="@) == "<="@ && minusculas(">"@) == ">"@ && minusculas(">="@) == ">="@ && minusculas("and"@) == "and"@
}

/// A closing symbol of an expression: `)`, `;`, `then`, `else`, `,` or
/// `do`.
pub open spec fn fechamento_da_lista(k: Tokens) -> bool {
    k == Tokens::FechaParenteses || k == Tokens::PontoVirgula || k == Tokens::Then || k == Tokens::Else
        || k == Tokens::Virgula || k == Tokens::Do
}

/// The level of an expression by the table: its operator's; 3 for a
/// constant, a variable or brackets.
pub open spec fn nivel_da_lista(x: ArvoreExpr) -> int {
    match x {
        ArvoreExpr::Binaria(_, o, _) => match operador_da_lista(o.1) {
            Some(d) => d.2,
            None => 0,
        },
        _ => 3,
    }
}

/// An expression over the table's operators, each written with its text,
/// grouping by the table's levels: an operator's left operand is of its
/// level or higher, its right operand of a higher level.
pub open spec fn bem_formada_da_lista(x: ArvoreExpr) -> bool
    decreases x,
{
    match x {
        ArvoreExpr::Folha(s) => s.1 == Tokens::True || s.1 == Tokens::False || s.1 == Tokens::Numero || s.1
            == Tokens::Identificador,
        ArvoreExpr::Parenteses(y) => bem_formada_da_lista(*y),
        ArvoreExpr::Binaria(l, o, r) => match operador_da_lista(o.1) {
            None => false,
            Some(d) => {
                &&& o.0 == d.0
                &&& bem_formada_da_lista(*l)
                &&& bem_formada_da_lista(*r)
                &&& nivel_da_lista(*l) >= d.2
                &&& nivel_da_lista(*r) > d.2
            },
        },
    }
}

/// The postfix code of an expression by the table: the operands' code, then
/// the table's instruction for the operator.
pub open spec fn posfixa_da_lista(x: ArvoreExpr, vars: Seq<(Seq<char>, i32)>) -> Seq<Seq<char>>
    decreases x,
{
    match x {
        ArvoreExpr::Folha(s) => seq![carga(s, vars)],
        ArvoreExpr::Parenteses(y) => posfixa_da_lista(*y, vars),
        ArvoreExpr::Binaria(l, o, r) => posfixa_da_lista(*l, vars) + posfixa_da_lista(*r, vars) + seq![
            match operador_da_lista(o.1) {
                Some(d) => d.1,
                None => Seq::empty(),
            },
        ],
    }
}

/// Each operator of the table is one of the generator's, of the table's
/// level, with the table's instruction.
proof fn lemma_operador_da_lista(o: (Seq<char>, Tokens))
    requires
        minusculas_fixas(),
        operador_da_lista(o.1) matches Some(d) && o.0 == d.0,
    ensures
        operador_valido(o),
        nivel_op(o.0) == operador_da_lista(o.1)->Some_0.2,
        instrucao_spec(o.0) == operador_da_lista(o.1)->Some_0.1,
{
    reveal_strlit("(");
    reveal_strlit("*");
    reveal_strlit("+");
    reveal_strlit("-");
    reveal_strlit("/");
    reveal_strlit("<");
    reveal_strlit("<=");
    reveal_strlit("<>");
    reveal_strlit("=");
    reveal_strlit(">");
    reveal_strlit(">=");
    reveal_strlit("CMAG");
    reveal_strlit("CMDG");
    reveal_strlit("CMEG");
    reveal_strlit("CMIG");
    reveal_strlit("CMMA");
    reveal_strlit("CMME");
    reveal_strlit("CONJ");
    reveal_strlit("DIVI");
    reveal_strlit("MULT");
    reveal_strlit("None");
    reveal_strlit("SOMA");
    reveal_strlit("SUBT");
    reveal_strlit("and");
    match o.1 {
        Tokens::Mais => {
            assert(o.0 == "+"@);
            assert("+"@[0] != "("@[0]);
            assert("+"@[0] != "*"@[0]);
            assert("+"@[0] != "/"@[0]);
            assert("+"@[0] != "-"@[0]);
            assert("+"@[0] != "="@[0]);
            assert("+"@[0] != "<"@[0]);
            assert("+"@.len() != "<="@.len());
            assert("+"@[0] != ">"@[0]);
            assert("+"@.len() != ">="@.len());
            assert("+"@.len() != "<>"@.len());
            assert("+"@.len() != "and"@.len());
        },
        Tokens::Menos => {
            assert(o.0 == "-"@);
            assert("-"@[0] != "("@[0]);
            assert("-"@[0] != "*"@[0]);
            assert("-"@[0] != "/"@[0]);
            assert("-"@[0] != "+"@[0]);
            assert("-"@[0] != "="@[0]);
            assert("-"@[0] != "<"@[0]);
            assert("-"@.len() != "<="@.len());
            assert("-"@[0] != ">"@[0]);
            assert("-"@.len() != ">="@.len());
            assert("-"@.len() != "<>"@.len());
            assert("-"@.len() != "and"@.len());
        },
        Tokens::Multiplicacao => {
            assert(o.0 == "*"@);
            assert("*"@[0] != "("@[0]);
            assert("*"@[0] != "/"@[0]);
            assert("*"@[0] != "+"@[0]);
            assert("*"@[0] != "-"@[0]);
            assert("*"@[0] != "="@[0]);
            assert("*"@[0] != "<"@[0]);
            assert("*"@.len() != "<="@.len());
            assert("*"@[0] != ">"@[0]);
            assert("*"@.len() != ">="@.len());
            assert("*"@.len() != "<>"@.len());
            assert("*"@.len() != "and"@.len());
        },
        Tokens::Divisao => {
            assert(o.0 == "/"@);
            assert("/"@[0] != "("@[0]);
            assert("/"@[0] != "*"@[0]);
            assert("/"@[0] != "+"@[0]);
            assert("/"@[0] != "-"@[0]);
            assert("/"@[0] != "="@[0]);
            assert("/"@[0] != "<"@[0]);
            assert("/"@.len() != "<="@.len());
            assert("/"@[0] != ">"@[0]);
            assert("/"@.len() != ">="@.len());
            assert("/"@.len() != "<>"@.len());
            assert("/"@.len() != "and"@.len());
        },
        Tokens::Igual => {
            assert(o.0 == "="@);
            assert("="@[0] != "("@[0]);
            assert("="@[0] != "*"@[0]);
            assert("="@[0] != "/"@[0]);
            assert("="@[0] != "+"@[0]);
            assert("="@[0] != "-"@[0]);
            assert("="@[0] != "<"@[0]);
            assert("="@.len() != "<="@.len());
            assert("="@[0] != ">"@[0]);
            assert("="@.len() != ">="@.len());
            assert("="@.len() != "<>"@.len());
            assert("="@.len() != "and"@.len());
        },
        Tokens::Diferente => {
            assert(o.0 == "<>"@);
            assert("<>"@.len() != "("@.len());
            assert("<>"@.len() != "*"@.len());
            assert("<>"@.len() != "/"@.len());
            assert("<>"@.len() != "+"@.len());
            assert("<>"@.len() != "-"@.len());
            assert("<>"@.len() != "="@.len());
            assert("<>"@.len() != "<"@.len());
            assert("<>"@[1] != "<="@[1]);
            assert("<>"@.len() != ">"@.len());
            assert("<>"@[0] != ">="@[0]);
            assert("<>"@.len() != "and"@.len());
        },
        Tokens::Menor => {
            assert(o.0 == "<"@);
            assert("<"@[0] != "("@[0]);
            assert("<"@[0] != "*"@[0]);
            assert("<"@[0] != "/"@[0]);
            assert("<"@[0] != "+"@[0]);
            assert("<"@[0] != "-"@[0]);
            assert("<"@[0] != "="@[0]);
            assert("<"@.len() != "<="@.len());
            assert("<"@[0] != ">"@[0]);
            assert("<"@.len() != ">="@.len());
            assert("<"@.len() != "<>"@.len());
            assert("<"@.len() != "and"@.len());
        },
        Tokens::MenorIgual => {
            assert(o.0 == "<="@);
            assert("<="@.len() != "("@.len());
            assert("<="@.len() != "*"@.len());
            assert("<="@.len() != "/"@.len());
            assert("<="@.len() != "+"@.len());
            assert("<="@.len() != "-"@.len());
            assert("<="@.len() != "="@.len());
            assert("<="@.len() != "<"@.len());
            assert("<="@.len() != ">"@.len());
            assert("<="@[0] != ">="@[0]);
            assert("<="@[1] != "<>"@[1]);
            assert("<="@.len() != "and"@.len());
        },
        Tokens::Maior => {
            assert(o.0 == ">"@);
            assert(">"@[0] != "("@[0]);
            assert(">"@[0] != "*"@[0]);
            assert(">"@[0] != "/"@[0]);
            assert(">"@[0] != "+"@[0]);
            assert(">"@[0] != "-"@[0]);
            assert(">"@[0] != "="@[0]);
            assert(">"@[0] != "<"@[0]);
            assert(">"@.len() != "<="@.len());
            assert(">"@.len() != ">="@.len());
            assert(">"@.len() != "<>"@.len());
            assert(">"@.len() != "and"@.len());
        },
        Tokens::MaiorIgual => {
            assert(o.0 == ">="@);
            assert(">="@.len() != "("@.len());
            assert(">="@.len() != "*"@.len());
            assert(">="@.len() != "/"@.len());
            assert(">="@.len() != "+"@.len());
            assert(">="@.len() != "-"@.len());
            assert(">="@.len() != "="@.len());
            assert(">="@.len() != "<"@.len());
            assert(">="@[0] != "<="@[0]);
            assert(">="@.len() != ">"@.len());
            assert(">="@[0] != "<>"@[0]);
            assert(">="@.len() != "and"@.len());
        },
        Tokens::And => {
            assert(o.0 == "and"@);
            assert("and"@.len() != "("@.len());
            assert("and"@.len() != "*"@.len());
            assert("and"@.len() != "/"@.len());
            assert("and"@.len() != "+"@.len());
            assert("and"@.len() != "-"@.len());
            assert("and"@.len() != "="@.len());
            assert("and"@.len() != "<"@.len());
            assert("and"@.len() != "<="@.len());
            assert("and"@.len() != ">"@.len());
            assert("and"@.len() != ">="@.len());
            assert("and"@.len() != "<>"@.len());
        },
        _ => {},
    }
}

/// A well-formed expression over the table is well formed for the
/// generator, of the same level, and its postfix code is the table's.
proof fn lemma_da_lista(x: ArvoreExpr, vars: Seq<(Seq<char>, i32)>)
    requires
        minusculas_fixas(),
        bem_formada_da_lista(x),
    ensures
        bem_formada(x),
        nivel(x) == nivel_da_lista(x),
        posfixa(x, vars) == posfixa_da_lista(x, vars),
    decreases x,
{
    match x {
        ArvoreExpr::Folha(_) => {},
        ArvoreExpr::Parenteses(y) => {
            lemma_da_lista(*y, vars);
        },
        ArvoreExpr::Binaria(l, o, r) => {
            lemma_da_lista(*l, vars);
            lemma_da_lista(*r, vars);
            lemma_operador_da_lista(o);
        },
    }
}

/// The compilation of an expression over the fixed table of operators `+`,
/// `-`, `*`, `/`, `=`, `<>`, `<`, `<=`, `>`, `>=` and `and`, followed by a
/// closing symbol: with `*` and `/` binding tighter than the rest and every
/// operator grouping to the left, the code written is the expression in
/// postfix order with each operator's instruction from the table (so `x <> y ;`
/// gives the load of `x`, the load of `y`, then `CMDG`), and the stack of
/// operators comes back as it was.
pub proof fn lei_expressao_da_lista(
    t: Traducao,
    x: ArvoreExpr,
    fim: (Seq<char>, Tokens),
    vars: Seq<(Seq<char>, i32)>,
)
    requires
        minusculas_fixas(),
        bem_formada_da_lista(x),
        fechamento_da_lista(fim.1),
    ensures
        expressao_spec(t, simbolos_expr(x).push(fim), vars) == Some(
            Traducao { codigo: t.codigo + posfixa_da_lista(x, vars), pilha: t.pilha },
        ),
{
    lemma_da_lista(x, vars);
    lei_expressao_posfixa(t, x, fim, vars);
}


/// The operators of the simpler generator, as a fixed table: for each kind
/// of token, its text, the instruction the simpler generator names for it
/// and its level (`*` binds tighter than the rest).
pub open spec fn operador_simples_da_lista(k: Tokens) -> Option<(Seq<char>, Seq<char>, int)> {
    match k {
        Tokens::Mais => Some(("+"@, "SOMA"@, 1int)),
        Tokens::Menos => Some(("-"@, "SUB"@, 1int)),
        Tokens::Multiplicacao => Some(("*"@, "MULT"@, 2int)),
        Tokens::Menor => Some(("<"@, "CMME"@, 1int)),
        Tokens::MenorIgual => Some(("<="@, "CMEG"@, 1int)),
        Tokens::Maior => Some((">"@, "CMMA"@, 1int)),
        Tokens::MaiorIgual => Some((">="@, "CMAG"@, 1int)),
        Tokens::Igual => Some(("="@, "CMIG"@, 1int)),
        _ => None,
    }
}

/// A closing symbol of an expression for the simpler generator: `)`, `;`,
/// `then`, `,` or `do`.
pub open spec fn fechamento_simples_da_lista(k: Tokens) -> bool {
    k == Tokens::FechaParenteses || k == Tokens::PontoVirgula || k == Tokens::Then || k == Tokens::Virgula
        || k == Tokens::Do
}

/// The level of an expression by the simpler generator's table.
pub open spec fn nivel_simples(x: ArvoreExpr) -> int {
    match x {
        ArvoreExpr::Binaria(_, o, _) => match operador_simples_da_lista(o.1) {
            Some(d) => d.2,
            None => 0,
        },
        _ => 3,
    }
}

/// An expression over the simpler generator's table, its leaves numbers and
/// variables, grouping by the table's levels: an operator's left operand is
/// of its level or higher, its right operand of a higher level.
pub open spec fn bem_formada_simples(x: ArvoreExpr) -> bool
    decreases x,
{
    match x {
        ArvoreExpr::Folha(s) => s.1 == Tokens::Numero || s.1 == Tokens::Identificador,
        ArvoreExpr::Parenteses(y) => bem_formada_simples(*y),
        ArvoreExpr::Binaria(l, o, r) => match operador_simples_da_lista(o.1) {
            None => false,
            Some(d) => {
                &&& o.0 == d.0
                &&& bem_formada_simples(*l)
                &&& bem_formada_simples(*r)
                &&& nivel_simples(*l) >= d.2
                &&& nivel_simples(*r) > d.2
            },
        },
    }
}

/// The postfix code of an expression by the simpler generator's table.
pub open spec fn posfixa_simples(x: ArvoreExpr, vars: Seq<(Seq<char>, i32)>) -> Seq<Seq<char>>
    decreases x,
{
    match x {
        ArvoreExpr::Folha(s) => seq![carga(s, vars)],
        ArvoreExpr::Parenteses(y) => posfixa_simples(*y, vars),
        ArvoreExpr::Binaria(l, o, r) => posfixa_simples(*l, vars) + posfixa_simples(*r, vars) + seq![
            match operador_simples_da_lista(o.1) {
                Some(d) => d.1,
                None => Seq::empty(),
            },
        ],
    }
}

/// The code written by the simpler generator once an expression is read,
/// before its pending operators leave the stack.
pub open spec fn emitido_simples(x: ArvoreExpr, vars: Seq<(Seq<char>, i32)>) -> Seq<Seq<char>>
    decreases x,
{
    match x {
        ArvoreExpr::Folha(s) => seq![carga(s, vars)],
        ArvoreExpr::Parenteses(y) => posfixa_simples(*y, vars),
        ArvoreExpr::Binaria(l, o, r) => posfixa_simples(*l, vars) + emitido_simples(*r, vars),
    }
}

/// The simpler generator's instructions of operators leaving the stack, the
/// top one first.
pub open spec fn esvazia_simples(p: Seq<Seq<char>>) -> Seq<Seq<char>>
    decreases p.len(),
{
    if p.len() == 0 {
        Seq::empty()
    } else {
        seq![instrucao_simples(p.last())] + esvazia_simples(p.drop_last())
    }
}

/// Each operator of the simpler table has, for the simpler generator, the
/// table's level coming in and on the stack and the table's instruction,
/// and is no `(`.
proof fn lemma_operador_simples(o: (Seq<char>, Tokens))
    requires
        operador_simples_da_lista(o.1) matches Some(d) && o.0 == d.0,
    ensures
        operador_simples(o.1),
        entrada_simples(o.0) == operador_simples_da_lista(o.1)->Some_0.2,
        pilha_simples(o.0) == operador_simples_da_lista(o.1)->Some_0.2,
        instrucao_simples(o.0) == operador_simples_da_lista(o.1)->Some_0.1,
        o.0 != "("@,
        1 <= operador_simples_da_lista(o.1)->Some_0.2 <= 2,
{
    reveal_strlit("(");
    reveal_strlit("*");
    reveal_strlit("+");
    reveal_strlit("-");
    reveal_strlit("/");
    reveal_strlit("<");
    reveal_strlit("<=");
    reveal_strlit("=");
    reveal_strlit(">");
    reveal_strlit(">=");
    reveal_strlit("CMAG");
    reveal_strlit("CMEG");
    reveal_strlit("CMIG");
    reveal_strlit("CMMA");
    reveal_strlit("CMME");
    reveal_strlit("MULT");
    reveal_strlit("SOMA");
    reveal_strlit("SUB");
    match o.1 {
        Tokens::Mais => {
            assert(o.0 == "+"@);
            assert("+"@[0] != "-"@[0]);
            assert("+"@[0] != "*"@[0]);
            assert("+"@[0] != "/"@[0]);
            assert("+"@[0] != ">"@[0]);
            assert("+"@.len() != ">="@.len());
            assert("+"@[0] != "<"@[0]);
            assert("+"@.len() != "<="@.len());
            assert("+"@[0] != "="@[0]);
            assert("+"@[0] != "("@[0]);
        },
        Tokens::Menos => {
            assert(o.0 == "-"@);
            assert("-"@[0] != "+"@[0]);
            assert("-"@[0] != "*"@[0]);
            assert("-"@[0] != "/"@[0]);
            assert("-"@[0] != ">"@[0]);
            assert("-"@.len() != ">="@.len());
            assert("-"@[0] != "<"@[0]);
            assert("-"@.len() != "<="@.len());
            assert("-"@[0] != "="@[0]);
            assert("-"@[0] != "("@[0]);
        },
        Tokens::Multiplicacao => {
            assert(o.0 == "*"@);
            assert("*"@[0] != "+"@[0]);
            assert("*"@[0] != "-"@[0]);
            assert("*"@[0] != "/"@[0]);
            assert("*"@[0] != ">"@[0]);
            assert("*"@.len() != ">="@.len());
            assert("*"@[0] != "<"@[0]);
            assert("*"@.len() != "<="@.len());
            assert("*"@[0] != "="@[0]);
            assert("*"@[0] != "("@[0]);
        },
        Tokens::Menor => {
            assert(o.0 == "<"@);
            assert("<"@[0] != "+"@[0]);
            assert("<"@[0] != "-"@[0]);
            assert("<"@[0] != "*"@[0]);
            assert("<"@[0] != "/"@[0]);
            assert("<"@[0] != ">"@[0]);
            assert("<"@.len() != ">="@.len());
            assert("<"@.len() != "<="@.len());
            assert("<"@[0] != "="@[0]);
            assert("<"@[0] != "("@[0]);
        },
        Tokens::MenorIgual => {
            assert(o.0 == "<="@);
            assert("<="@.len() != "+"@.len());
            assert("<="@.len() != "-"@.len());
            assert("<="@.len() != "*"@.len());
            assert("<="@.len() != "/"@.len());
            assert("<="@.len() != ">"@.len());
            assert("<="@[0] != ">="@[0]);
            assert("<="@.len() != "<"@.len());
            assert("<="@.len() != "="@.len());
            assert("<="@.len() != "("@.len());
        },
        Tokens::Maior => {
            assert(o.0 == ">"@);
            assert(">"@[0] != "+"@[0]);
            assert(">"@[0] != "-"@[0]);
            assert(">"@[0] != "*"@[0]);
            assert(">"@[0] != "/"@[0]);
            assert(">"@.len() != ">="@.len());
            assert(">"@[0] != "<"@[0]);
            assert(">"@.len() != "<="@.len());
            assert(">"@[0] != "="@[0]);
            assert(">"@[0] != "("@[0]);
        },
        Tokens::MaiorIgual => {
            assert(o.0 == ">="@);
            assert(">="@.len() != "+"@.len());
            assert(">="@.len() != "-"@.len());
            assert(">="@.len() != "*"@.len());
            assert(">="@.len() != "/"@.len());
            assert(">="@.len() != ">"@.len());
            assert(">="@.len() != "<"@.len());
            assert(">="@[0] != "<="@[0]);
            assert(">="@.len() != "="@.len());
            assert(">="@.len() != "("@.len());
        },
        Tokens::Igual => {
            assert(o.0 == "="@);
            assert("="@[0] != "+"@[0]);
            assert("="@[0] != "-"@[0]);
            assert("="@[0] != "*"@[0]);
            assert("="@[0] != "/"@[0]);
            assert("="@[0] != ">"@[0]);
            assert("="@.len() != ">="@.len());
            assert("="@[0] != "<"@[0]);
            assert("="@.len() != "<="@.len());
            assert("="@[0] != "("@[0]);
        },
        _ => {},
    }
}

proof fn lemma_esvazia_simples_base(o: Seq<char>, p: Seq<Seq<char>>)
    ensures
        esvazia_simples(seq![o] + p) == esvazia_simples(p) + seq![instrucao_simples(o)],
    decreases p.len(),
{
    if p.len() == 0 {
        assert((seq![o] + p).drop_last() =~= Seq::<Seq<char>>::empty());
        assert((seq![o] + p).last() == o);
        assert(esvazia_simples(Seq::<Seq<char>>::empty()) == Seq::<Seq<char>>::empty());
        assert(esvazia_simples(seq![o] + p) =~= seq![instrucao_simples(o)]);
    } else {
        assert((seq![o] + p).drop_last() =~= seq![o] + p.drop_last());
        lemma_esvazia_simples_base(o, p.drop_last());
        assert(esvazia_simples(seq![o] + p) =~= esvazia_simples(p) + seq![instrucao_simples(o)]);
    }
}

/// The pending operators of a well-formed expression of the simpler
/// generator are of its level or higher on the stack, and none is `(`.
proof fn lemma_pendentes_simples(x: ArvoreExpr)
    requires
        bem_formada_simples(x),
    ensures
        forall|i: int|
            0 <= i < pendentes(x).len() ==> pilha_simples(#[trigger] pendentes(x)[i]) >= nivel_simples(x)
                && pendentes(x)[i] != "("@,
        1 <= nivel_simples(x),
    decreases x,
{
    if let ArvoreExpr::Binaria(l, o, r) = x {
        lemma_pendentes_simples(*r);
        lemma_operador_simples(o);
        assert forall|i: int| 0 <= i < pendentes(x).len() implies pilha_simples(#[trigger] pendentes(x)[i])
            >= nivel_simples(x) && pendentes(x)[i] != "("@ by {
            if i > 0 {
                assert(pendentes(x)[i] == pendentes(*r)[i - 1]);
            }
        }
    }
}

proof fn lemma_posfixa_simples(x: ArvoreExpr, vars: Seq<(Seq<char>, i32)>)
    requires
        bem_formada_simples(x),
    ensures
        posfixa_simples(x, vars) == emitido_simples(x, vars) + esvazia_simples(pendentes(x)),
    decreases x,
{
    match x {
        ArvoreExpr::Binaria(l, o, r) => {
            lemma_posfixa_simples(*r, vars);
            lemma_operador_simples(o);
            lemma_esvazia_simples_base(o.0, pendentes(*r));
            assert(posfixa_simples(x, vars) =~= emitido_simples(x, vars) + esvazia_simples(pendentes(x)));
        },
        _ => {
            assert(esvazia_simples(pendentes(x)) =~= Seq::<Seq<char>>::empty());
            assert(posfixa_simples(x, vars) =~= emitido_simples(x, vars) + esvazia_simples(pendentes(x)));
        },
    }
}

proof fn lemma_traduz_simples_concat(
    t: Traducao,
    a: Seq<(Seq<char>, Tokens)>,
    b: Seq<(Seq<char>, Tokens)>,
    vars: Seq<(Seq<char>, i32)>,
)
    ensures
        traduz_simples(t, a + b, vars) == match traduz_simples(t, a, vars) {
            None => None,
            Some(t2) => traduz_simples(t2, b, vars),
        },
    decreases b.len(),
{
    if b.len() == 0 {
        assert(a + b =~= a);
    } else {
        assert((a + b).drop_last() =~= a + b.drop_last());
        assert((a + b).last() == b.last());
        lemma_traduz_simples_concat(t, a, b.drop_last(), vars);
    }
}

proof fn lemma_traduz_simples_um(t: Traducao, s: (Seq<char>, Tokens), vars: Seq<(Seq<char>, i32)>)
    ensures
        traduz_simples(t, seq![s], vars) == passo_simples(t, s, vars),
{
    assert(seq![s].drop_last() =~= Seq::<(Seq<char>, Tokens)>::empty());
    assert(seq![s].last() == s);
    assert(traduz_simples(t, Seq::<(Seq<char>, Tokens)>::empty(), vars) == Some(t));
}

proof fn lemma_opera_simples(c: Seq<Seq<char>>, s: Seq<Seq<char>>, p: Seq<Seq<char>>, o: Seq<char>)
    requires
        s.len() > 0,
        pilha_simples(s.last()) < entrada_simples(o),
        forall|i: int| 0 <= i < p.len() ==> pilha_simples(#[trigger] p[i]) >= entrada_simples(o),
    ensures
        opera_simples(Traducao { codigo: c, pilha: s + p }, o) == Some(
            Traducao { codigo: c + esvazia_simples(p), pilha: s.push(o) },
        ),
    decreases p.len(),
{
    if p.len() == 0 {
        assert(s + p =~= s);
        assert(c + esvazia_simples(p) =~= c);
    } else {
        assert((s + p).last() == p.last());
        assert((s + p).drop_last() =~= s + p.drop_last());
        assert(p.last() == p[p.len() - 1]);
        lemma_opera_simples(c.push(instrucao_simples(p.last())), s, p.drop_last(), o);
        assert(c.push(instrucao_simples(p.last())) + esvazia_simples(p.drop_last()) =~= c + esvazia_simples(p));
    }
}

proof fn lemma_fecha_simples(c: Seq<Seq<char>>, s: Seq<Seq<char>>, p: Seq<Seq<char>>)
    requires
        s.len() > 0,
        s.last() == "("@,
        forall|i: int| 0 <= i < p.len() ==> #[trigger] p[i] != "("@,
    ensures
        fecha_simples(Traducao { codigo: c, pilha: s + p }) == Some(
            Traducao { codigo: c + esvazia_simples(p), pilha: s.drop_last() },
        ),
    decreases p.len(),
{
    if p.len() == 0 {
        assert(s + p =~= s);
        assert(c + esvazia_simples(p) =~= c);
    } else {
        assert((s + p).last() == p.last());
        assert((s + p).drop_last() =~= s + p.drop_last());
        assert(p.last() == p[p.len() - 1]);
        lemma_fecha_simples(c.push(instrucao_simples(p.last())), s, p.drop_last());
        assert(c.push(instrucao_simples(p.last())) + esvazia_simples(p.drop_last()) =~= c + esvazia_simples(p));
    }
}

proof fn lemma_processa_simples(
    x: ArvoreExpr,
    c: Seq<Seq<char>>,
    s: Seq<Seq<char>>,
    vars: Seq<(Seq<char>, i32)>,
)
    requires
        bem_formada_simples(x),
        s.len() > 0,
        pilha_simples(s.last()) < nivel_simples(x),
    ensures
        traduz_simples(Traducao { codigo: c, pilha: s }, simbolos_expr(x), vars) == Some(
            Traducao { codigo: c + emitido_simples(x, vars), pilha: s + pendentes(x) },
        ),
    decreases x,
{
    let t = Traducao { codigo: c, pilha: s };
    reveal_strlit("(");
    match x {
        ArvoreExpr::Folha(a) => {
            lemma_traduz_simples_um(t, a, vars);
            assert(s + pendentes(x) =~= s);
            assert(c.push(carga(a, vars)) =~= c + emitido_simples(x, vars));
        },
        ArvoreExpr::Parenteses(y) => {
            let abre = ("("@, Tokens::AbreParenteses);
            let fechap = (")"@, Tokens::FechaParenteses);
            let s1 = s.push("("@);
            lemma_pendentes_simples(*y);
            assert(simbolos_expr(x) == seq![abre] + simbolos_expr(*y) + seq![fechap]);
            lemma_traduz_simples_concat(t, seq![abre] + simbolos_expr(*y), seq![fechap], vars);
            lemma_traduz_simples_concat(t, seq![abre], simbolos_expr(*y), vars);
            lemma_traduz_simples_um(t, abre, vars);
            assert(s1.last() == "("@);
            lemma_processa_simples(*y, c, s1, vars);
            let t2 = Traducao { codigo: c + emitido_simples(*y, vars), pilha: s1 + pendentes(*y) };
            lemma_traduz_simples_um(t2, fechap, vars);
            lemma_fecha_simples(c + emitido_simples(*y, vars), s1, pendentes(*y));
            lemma_posfixa_simples(*y, vars);
            assert(s1.drop_last() =~= s);
            assert(s + pendentes(x) =~= s);
            assert(c + emitido_simples(*y, vars) + esvazia_simples(pendentes(*y)) =~= c + emitido_simples(x, vars));
        },
        ArvoreExpr::Binaria(l, o, r) => {
            lemma_pendentes_simples(*l);
            lemma_pendentes_simples(*r);
            lemma_operador_simples(o);
            assert(simbolos_expr(x) == simbolos_expr(*l) + seq![o] + simbolos_expr(*r));
            lemma_traduz_simples_concat(t, simbolos_expr(*l) + seq![o], simbolos_expr(*r), vars);
            lemma_traduz_simples_concat(t, simbolos_expr(*l), seq![o], vars);
            lemma_processa_simples(*l, c, s, vars);
            let t1 = Traducao { codigo: c + emitido_simples(*l, vars), pilha: s + pendentes(*l) };
            lemma_traduz_simples_um(t1, o, vars);
            lemma_opera_simples(c + emitido_simples(*l, vars), s, pendentes(*l), o.0);
            lemma_posfixa_simples(*l, vars);
            let s2 = s.push(o.0);
            assert(c + emitido_simples(*l, vars) + esvazia_simples(pendentes(*l)) =~= c + posfixa_simples(*l, vars));
            assert(s2.last() == o.0);
            lemma_processa_simples(*r, c + posfixa_simples(*l, vars), s2, vars);
            assert(c + posfixa_simples(*l, vars) + emitido_simples(*r, vars) =~= c + emitido_simples(x, vars));
            assert(s2 + pendentes(*r) =~= s + pendentes(x));
        },
    }
}

/// The compilation of an expression by the simpler generator, over its
/// fixed table of operators `+`, `-`, `*`, `<`, `<=`, `>`, `>=` and `=`,
/// followed by a closing symbol: with `*` binding tighter than the rest,
/// every operator grouping to the left and brackets grouping what they
/// hold (so `(1 + 2) * 3 ;` gives `1 2 +` before `3 *`), the code written is
/// the expression in postfix order with the table's instructions, and the
/// stack of operators comes back as it was.
pub proof fn lei_expressao_simples(
    e: Estado,
    x: ArvoreExpr,
    fim: (Seq<char>, Tokens),
    vars: Seq<(Seq<char>, i32)>,
)
    requires
        bem_formada_simples(x),
        fechamento_simples_da_lista(fim.1),
    ensures
        traduz_simples_em(e, simbolos_expr(x).push(fim), vars) == Ok::<Estado, ErroGeracao>(
            Estado { pos: e.pos, codigo: e.codigo + posfixa_simples(x, vars), pilha: e.pilha, rotulos: e.rotulos },
        ),
{
    reveal_strlit("(");
    let s1 = e.pilha.push("("@);
    let t0 = Traducao { codigo: e.codigo, pilha: s1 };
    lemma_pendentes_simples(x);
    assert(simbolos_expr(x).push(fim) =~= simbolos_expr(x) + seq![fim]);
    lemma_traduz_simples_concat(t0, simbolos_expr(x), seq![fim], vars);
    assert(s1.last() == "("@);
    lemma_processa_simples(x, e.codigo, s1, vars);
    let t2 = Traducao { codigo: e.codigo + emitido_simples(x, vars), pilha: s1 + pendentes(x) };
    lemma_traduz_simples_um(t2, fim, vars);
    lemma_fecha_simples(e.codigo + emitido_simples(x, vars), s1, pendentes(x));
    lemma_posfixa_simples(x, vars);
    assert(s1.drop_last() =~= e.pilha);
    assert(e.codigo + emitido_simples(x, vars) + esvazia_simples(pendentes(x)) =~= e.codigo + posfixa_simples(x, vars));
}

} // verus!
