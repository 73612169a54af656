//! Laws of the MEPA code generator's statements: a `write` prints once per
//! expression of its list, and an `if` places the label its jump names.
use vstd::prelude::*;
use crate::gerador_mepa::{
    Estado, Traducao, atribuicao_spec, bloco, comando, enquanto, escreva, escreva_lista, expressao_spec, fecha,
    instrucao_de, instrucao_spec, le_expr, leia, leia_lista, medida, opera, para, passo_expr, primeiro, repete,
    repete_depois, repete_laco, rotulo_nome, se, sequencia, traduz, traduz_em, lemma_le_expr,
};
use crate::texto::minusculas;
use crate::tokens::Tokens;

verus! {

/// The number of `IMPR` instructions in a code.
pub open spec fn conta_impr(c: Seq<Seq<char>>) -> nat
    decreases c.len(),
{
    if c.len() == 0 {
        0
    } else {
        conta_impr(c.drop_last()) + if c.last() == "IMPR"@ {
            1nat
        } else {
            0nat
        }
    }
}

/// A symbol that ends an expression of a `write` list: `,` or `)`.
pub open spec fn delimita_lista(k: Tokens) -> bool {
    k == Tokens::Virgula || k == Tokens::FechaParenteses
}

/// The number of `,` and `)` among the symbols from index `a` up to, not
/// including, index `b`.
pub open spec fn conta_delimitadores(s: Seq<(Seq<char>, Tokens)>, a: int, b: int) -> nat
    decreases b - a,
{
    if b <= a {
        0
    } else {
        conta_delimitadores(s, a, b - 1) + if delimita_lista(s[b - 1].1) {
            1nat
        } else {
            0nat
        }
    }
}

/// Counting over two ranges one after the other.
proof fn lemma_conta_soma(s: Seq<(Seq<char>, Tokens)>, a: int, b: int, c: int)
    requires
        a <= b <= c,
    ensures
        conta_delimitadores(s, a, c) == conta_delimitadores(s, a, b) + conta_delimitadores(s, b, c),
    decreases c - b,
{
    if c > b {
        lemma_conta_soma(s, a, b, c - 1);
    }
}

/// A range without `,` or `)` counts none.
proof fn lemma_conta_zero(s: Seq<(Seq<char>, Tokens)>, a: int, b: int)
    requires
        forall|j: int| a <= j < b ==> !delimita_lista(#[trigger] s[j].1),
    ensures
        conta_delimitadores(s, a, b) == 0,
    decreases b - a,
{
    if b > a {
        lemma_conta_zero(s, a, b - 1);
    }
}

/// Before what `primeiro` finds there is no symbol of either kind.
proof fn lemma_primeiro_antes(s: Seq<(Seq<char>, Tokens)>, i: nat, a: Tokens, b: Tokens)
    ensures
        forall|j: int| i <= j < primeiro(s, i, a, b) && j < s.len() ==> #[trigger] s[j].1 != a && s[j].1 != b,
    decreases s.len() - i,
{
    if i < s.len() && !(s[i as int].1 == a || s[i as int].1 == b) {
        lemma_primeiro_antes(s, i + 1, a, b);
    }
}

/// No instruction of an operator is `IMPR`.
proof fn lemma_instrucao_nao_impr(x: Seq<char>)
    ensures
        instrucao_spec(x) != "IMPR"@,
{
    reveal_strlit("IMPR");
    reveal_strlit("SOMA");
    reveal_strlit("SUBT");
    reveal_strlit("MULT");
    reveal_strlit("DIVI");
    reveal_strlit("CMMA");
    reveal_strlit("CMAG");
    reveal_strlit("CMME");
    reveal_strlit("CMEG");
    reveal_strlit("CMIG");
    reveal_strlit("CMDG");
    reveal_strlit("CONJ");
    let v = instrucao_de(minusculas(x));
    assert(v.len() == 0 || v[0] != 'I');
}

/// A closing symbol writes no `IMPR`.
proof fn lemma_fecha_impr(t: Traducao)
    ensures
        fecha(t) matches Some(t2) ==> conta_impr(t2.codigo) == conta_impr(t.codigo),
    decreases t.pilha.len(),
{
    if t.pilha.len() > 0 && t.pilha.last() != "("@ {
        lemma_instrucao_nao_impr(t.pilha.last());
        let c = t.codigo.push(instrucao_spec(t.pilha.last()));
        assert(c.drop_last() =~= t.codigo);
        lemma_fecha_impr(Traducao { codigo: c, pilha: t.pilha.drop_last() });
    }
}

/// An operator writes no `IMPR`.
proof fn lemma_opera_impr(t: Traducao, op: Seq<char>)
    ensures
        opera(t, op) matches Some(t2) ==> conta_impr(t2.codigo) == conta_impr(t.codigo),
    decreases t.pilha.len(),
{
    if t.pilha.len() > 0 {
        lemma_instrucao_nao_impr(t.pilha.last());
        let c = t.codigo.push(instrucao_spec(t.pilha.last()));
        assert(c.drop_last() =~= t.codigo);
        lemma_opera_impr(Traducao { codigo: c, pilha: t.pilha.drop_last() }, op);
    }
}

/// The code of an expression holds no `IMPR`.
proof fn lemma_traduz_impr(t: Traducao, e: Seq<(Seq<char>, Tokens)>, vars: Seq<(Seq<char>, i32)>)
    ensures
        traduz(t, e, vars) matches Some(t2) ==> conta_impr(t2.codigo) == conta_impr(t.codigo),
    decreases e.len(),
{
    if e.len() > 0 {
        lemma_traduz_impr(t, e.drop_last(), vars);
        if let Some(t1) = traduz(t, e.drop_last(), vars) {
            let x = e.last();
            lemma_fecha_impr(t1);
            lemma_opera_impr(t1, x.0);
            reveal_strlit("IMPR");
            reveal_strlit("CRCT 1");
            reveal_strlit("CRCT 0");
            reveal_strlit("CRCT ");
            reveal_strlit("CRVL ");
            let k = x.1;
            if k == Tokens::True || k == Tokens::False || k == Tokens::Numero || k == Tokens::Identificador {
                let c = passo_expr(t1, x, vars)->Some_0.codigo;
                assert(c.drop_last() =~= t1.codigo);
                assert(c.last()[0] == 'C');
                assert(c.last() != "IMPR"@);
            }
        }
    }
}

/// The list of a `write` read from `e` to `r`, where no `,` or `)` starts
/// the list or follows another: one `IMPR` is written for each expression,
/// that is, for each `,` or `)` that ends one.
pub proof fn lei_escreva_um_impr_por_expressao(
    s: Seq<(Seq<char>, Tokens)>,
    vars: Seq<(Seq<char>, i32)>,
    e: Estado,
    r: Estado,
)
    requires
        escreva_lista(s, vars, e) == Ok::<Estado, crate::gerador_mepa::ErroGeracao>(r),
        forall|j: int|
            e.pos <= j < r.pos && j < s.len() && #[trigger] delimita_lista(s[j].1) ==> j > e.pos && !delimita_lista(
                s[j - 1].1,
            ),
    ensures
        r.pos > e.pos,
        conta_impr(r.codigo) == conta_impr(e.codigo) + conta_delimitadores(s, e.pos as int, r.pos as int),
    decreases s.len() - e.pos,
{
    let a = Tokens::Virgula;
    let b = Tokens::FechaParenteses;
    let (expr, p) = le_expr(s, e.pos, a, b)->Some_0;
    let q = primeiro(s, e.pos + 1, a, b);
    lemma_le_expr(s, e.pos, a, b);
    crate::gerador_mepa::lemma_primeiro(s, e.pos + 1, a, b);
    lemma_primeiro_antes(s, e.pos + 1, a, b);
    assert(p == q + 1);
    let e1 = traduz_em(e.em(p), expr, vars)->Ok_0;
    lemma_traduz_impr(Traducao { codigo: e.codigo, pilha: e.pilha.push("("@) }, expr, vars);
    assert(e1.codigo == expressao_spec(e.em(p).traducao(), expr, vars)->Some_0.codigo);
    let e2 = e1.emite("IMPR"@);
    assert(e2.codigo.drop_last() =~= e1.codigo);
    assert(conta_impr(e2.codigo) == conta_impr(e.codigo) + 1);
    if s[p as int].1 == Tokens::AbreParenteses || s[p as int].1 == Tokens::PontoVirgula {
        assert(r == e2.em(p + 1));
    } else {
        lei_escreva_um_impr_por_expressao(s, vars, e2, r);
    }
    assert(r.pos > p);
    assert(!delimita_lista(s[e.pos as int].1));
    assert(conta_delimitadores(s, e.pos as int, e.pos as int) == 0);
    assert(conta_delimitadores(s, e.pos as int, (e.pos + 1) as int) == 0);
    lemma_conta_zero(s, (e.pos + 1) as int, q as int);
    assert(conta_delimitadores(s, q as int, q as int) == 0);
    assert(conta_delimitadores(s, q as int, p as int) == 1);
    lemma_conta_soma(s, e.pos as int, (e.pos + 1) as int, q as int);
    lemma_conta_soma(s, e.pos as int, q as int, p as int);
    assert(conta_delimitadores(s, e.pos as int, p as int) == 1);
    if s[p as int].1 == Tokens::AbreParenteses || s[p as int].1 == Tokens::PontoVirgula {
        assert(conta_delimitadores(s, p as int, p as int) == 0);
        assert(conta_delimitadores(s, p as int, (p + 1) as int) == 0);
        lemma_conta_soma(s, e.pos as int, p as int, (p + 1) as int);
    } else {
        lemma_conta_soma(s, e.pos as int, p as int, r.pos as int);
    }
}


/// Code `b` starts with code `a`.
pub open spec fn prefixo(a: Seq<Seq<char>>, b: Seq<Seq<char>>) -> bool {
    a.len() <= b.len() && forall|i: int| 0 <= i < a.len() ==> #[trigger] b[i] == a[i]
}

/// State `b` keeps the code of state `a` at its start and has at least its
/// labels.
pub open spec fn estende(a: Estado, b: Estado) -> bool {
    prefixo(a.codigo, b.codigo) && a.rotulos.len() <= b.rotulos.len()
}

proof fn lemma_fecha_prefixo(t: Traducao)
    ensures
        fecha(t) matches Some(t2) ==> prefixo(t.codigo, t2.codigo),
    decreases t.pilha.len(),
{
    if t.pilha.len() > 0 && t.pilha.last() != "("@ {
        lemma_fecha_prefixo(Traducao { codigo: t.codigo.push(instrucao_spec(t.pilha.last())), pilha: t.pilha.drop_last() });
    }
}

proof fn lemma_opera_prefixo(t: Traducao, op: Seq<char>)
    ensures
        opera(t, op) matches Some(t2) ==> prefixo(t.codigo, t2.codigo),
    decreases t.pilha.len(),
{
    if t.pilha.len() > 0 {
        lemma_opera_prefixo(Traducao { codigo: t.codigo.push(instrucao_spec(t.pilha.last())), pilha: t.pilha.drop_last() }, op);
    }
}

proof fn lemma_traduz_prefixo(t: Traducao, e: Seq<(Seq<char>, Tokens)>, vars: Seq<(Seq<char>, i32)>)
    ensures
        traduz(t, e, vars) matches Some(t2) ==> prefixo(t.codigo, t2.codigo),
    decreases e.len(),
{
    if e.len() > 0 {
        lemma_traduz_prefixo(t, e.drop_last(), vars);
        if let Some(t1) = traduz(t, e.drop_last(), vars) {
            lemma_fecha_prefixo(t1);
            lemma_opera_prefixo(t1, e.last().0);
        }
    }
}

proof fn lemma_traduz_em_estende(e: Estado, expr: Seq<(Seq<char>, Tokens)>, vars: Seq<(Seq<char>, i32)>)
    ensures
        traduz_em(e, expr, vars) matches Ok(r) ==> estende(e, r) && r.pos == e.pos && r.rotulos == e.rotulos,
{
    lemma_traduz_prefixo(Traducao { codigo: e.codigo, pilha: e.pilha.push("("@) }, expr, vars);
}

proof fn lemma_atribuicao_estende(s: Seq<(Seq<char>, Tokens)>, vars: Seq<(Seq<char>, i32)>, e: Estado)
    ensures
        atribuicao_spec(s, vars, e) matches Ok(r) ==> estende(e, r),
{
    if e.pos + 2 <= s.len() {
        let p = (e.pos + 2) as nat;
        if let Some((expr, q)) = le_expr(s, p, Tokens::Else, Tokens::PontoVirgula) {
            let depois: nat = if expr.last().1 == Tokens::Else { (q - 1) as nat } else { q };
            lemma_traduz_em_estende(e.em(depois), expr, vars);
        }
    }
}

proof fn lemma_leia_lista_estende(s: Seq<(Seq<char>, Tokens)>, e: Estado)
    ensures
        leia_lista(s, e) matches Ok(r) ==> estende(e, r),
    decreases s.len() - e.pos,
{
    if e.pos < s.len() {
        let x = s[e.pos as int];
        if x.1 == Tokens::Identificador {
            lemma_leia_lista_estende(s, e.emite("LEIT"@).emite("ARMZ "@ + x.0).em(e.pos + 1));
        } else if x.1 == Tokens::Virgula {
            lemma_leia_lista_estende(s, e.em(e.pos + 1));
        }
    }
}

proof fn lemma_escreva_lista_estende(s: Seq<(Seq<char>, Tokens)>, vars: Seq<(Seq<char>, i32)>, e: Estado)
    ensures
        escreva_lista(s, vars, e) matches Ok(r) ==> estende(e, r),
    decreases s.len() - e.pos,
{
    if let Some((expr, p)) = le_expr(s, e.pos, Tokens::Virgula, Tokens::FechaParenteses) {
        lemma_traduz_em_estende(e.em(p), expr, vars);
        if let Ok(e1) = traduz_em(e.em(p), expr, vars) {
            lemma_le_expr(s, e.pos, Tokens::Virgula, Tokens::FechaParenteses);
            lemma_escreva_lista_estende(s, vars, e1.emite("IMPR"@));
        }
    }
}

proof fn lemma_comando_estende(s: Seq<(Seq<char>, Tokens)>, vars: Seq<(Seq<char>, i32)>, e: Estado)
    ensures
        comando(s, vars, e) matches Ok(r) ==> estende(e, r),
    decreases medida(s, e), 4nat,
{
    if e.pos < s.len() {
        lemma_atribuicao_estende(s, vars, e);
        lemma_se_estende(s, vars, e);
        lemma_enquanto_estende(s, vars, e);
        lemma_para_estende(s, vars, e);
        lemma_bloco_estende(s, vars, e);
        if e.pos + 2 <= s.len() {
            lemma_leia_lista_estende(s, e.em((e.pos + 2) as nat));
            lemma_escreva_lista_estende(s, vars, e.em((e.pos + 2) as nat));
        }
    }
}

proof fn lemma_bloco_estende(s: Seq<(Seq<char>, Tokens)>, vars: Seq<(Seq<char>, i32)>, e: Estado)
    ensures
        bloco(s, vars, e) matches Ok(r) ==> estende(e, r),
    decreases medida(s, e), 3nat,
{
    if e.pos < s.len() {
        let e1 = if s[e.pos as int].1 == Tokens::Begin { e.em(e.pos + 1) } else { e };
        lemma_sequencia_estende(s, vars, e1);
    }
}

proof fn lemma_sequencia_estende(s: Seq<(Seq<char>, Tokens)>, vars: Seq<(Seq<char>, i32)>, e: Estado)
    ensures
        sequencia(s, vars, e) matches Ok(r) ==> estende(e, r),
    decreases medida(s, e), 2nat,
{
    if e.pos < s.len() {
        lemma_atribuicao_estende(s, vars, e);
        lemma_se_estende(s, vars, e);
        lemma_enquanto_estende(s, vars, e);
        lemma_para_estende(s, vars, e);
        lemma_repete_estende(s, vars, e);
        if e.pos + 2 <= s.len() {
            lemma_leia_lista_estende(s, e.em((e.pos + 2) as nat));
            lemma_escreva_lista_estende(s, vars, e.em((e.pos + 2) as nat));
        }
        let k = s[e.pos as int].1;
        let passo = if k == Tokens::Identificador {
            atribuicao_spec(s, vars, e)
        } else if k == Tokens::If {
            se(s, vars, e)
        } else if k == Tokens::While {
            enquanto(s, vars, e)
        } else if k == Tokens::Read {
            leia(s, e)
        } else if k == Tokens::Write {
            escreva(s, vars, e)
        } else if k == Tokens::For {
            para(s, vars, e)
        } else if k == Tokens::Repeat {
            repete(s, vars, e)
        } else if k == Tokens::End {
            Ok(e)
        } else {
            Err(crate::gerador_mepa::ErroGeracao::SemFim)
        };
        if let Ok(e2) = passo {
            if e2.pos < s.len() && s[e2.pos as int].1 != Tokens::End && e2.pos > e.pos {
                lemma_sequencia_estende(s, vars, e2);
            }
        }
    }
}

proof fn lemma_se_estende(s: Seq<(Seq<char>, Tokens)>, vars: Seq<(Seq<char>, i32)>, e: Estado)
    ensures
        se(s, vars, e) matches Ok(r) ==> estende(e, r),
    decreases medida(s, e), 1nat,
{
    if e.pos < s.len() {
        if let Some((expr, p)) = le_expr(s, e.pos + 1, Tokens::Then, Tokens::Then) {
            lemma_traduz_em_estende(e.em(p), expr, vars);
            if let Ok(e1) = traduz_em(e.em(p), expr, vars) {
                let n = e1.rotulos.len() as int;
                let e2 = e1.rotula("if"@).emite("DSVF "@ + rotulo_nome(n));
                lemma_le_expr(s, e.pos + 1, Tokens::Then, Tokens::Then);
                lemma_comando_estende(s, vars, e2);
                if let Ok(e3) = comando(s, vars, e2) {
                    if e3.pos < s.len() && s[e3.pos as int].1 == Tokens::Else && e3.pos >= e.pos {
                        let m = e3.rotulos.len() as int;
                        let e4 = e3.em(e3.pos + 1).rotula("else"@).emite("DSVS "@ + rotulo_nome(m)).emite(
                            rotulo_nome(n) + " NADA"@,
                        );
                        lemma_comando_estende(s, vars, e4);
                    }
                }
            }
        }
    }
}

proof fn lemma_enquanto_estende(s: Seq<(Seq<char>, Tokens)>, vars: Seq<(Seq<char>, i32)>, e: Estado)
    ensures
        enquanto(s, vars, e) matches Ok(r) ==> estende(e, r),
    decreases medida(s, e), 1nat,
{
    if e.pos < s.len() {
        let n = e.rotulos.len() as int;
        let e1 = e.em(e.pos + 1).rotula("while"@).emite(rotulo_nome(n) + " NADA"@);
        if let Some((expr, p)) = le_expr(s, e.pos + 1, Tokens::Do, Tokens::Do) {
            lemma_traduz_em_estende(e1.em(p), expr, vars);
            if let Ok(e2) = traduz_em(e1.em(p), expr, vars) {
                let m = e2.rotulos.len() as int;
                let e3 = e2.rotula("do"@).emite("DSVF "@ + rotulo_nome(m));
                lemma_le_expr(s, e.pos + 1, Tokens::Do, Tokens::Do);
                lemma_comando_estende(s, vars, e3);
            }
        }
    }
}

proof fn lemma_para_estende(s: Seq<(Seq<char>, Tokens)>, vars: Seq<(Seq<char>, i32)>, e: Estado)
    ensures
        para(s, vars, e) matches Ok(r) ==> estende(e, r),
    decreases medida(s, e), 1nat,
{
    if e.pos + 3 <= s.len() {
        let var_i = s[e.pos + 1int].0;
        let posicao = crate::texto::decimal(crate::gerador_mepa::procura_var_spec(vars, var_i) as int);
        if let Some((expr, p)) = le_expr(s, (e.pos + 3) as nat, Tokens::To, Tokens::Downto) {
            lemma_traduz_em_estende(e.em(p), expr, vars);
            if let Ok(e1) = traduz_em(e.em(p), expr, vars) {
                let n = e1.rotulos.len() as int;
                let e2 = e1.emite("AMRZ "@ + var_i).rotula("for"@).emite(rotulo_nome(n) + " NADA"@).emite(
                    "CRVL "@ + posicao,
                );
                if let Some((expr2, p2)) = le_expr(s, p, Tokens::Do, Tokens::Do) {
                    lemma_traduz_em_estende(e2.em(p2), expr2, vars);
                    if let Ok(e3) = traduz_em(e2.em(p2), expr2, vars) {
                        let m = e3.rotulos.len() as int;
                        let e4 = e3.emite("CMEG"@).rotula("do"@).emite("DSVF "@ + rotulo_nome(m));
                        lemma_le_expr(s, (e.pos + 3) as nat, Tokens::To, Tokens::Downto);
                        lemma_le_expr(s, p, Tokens::Do, Tokens::Do);
                        lemma_comando_estende(s, vars, e4);
                    }
                }
            }
        }
    }
}

proof fn lemma_repete_estende(s: Seq<(Seq<char>, Tokens)>, vars: Seq<(Seq<char>, i32)>, e: Estado)
    ensures
        repete(s, vars, e) matches Ok(r) ==> estende(e, r),
    decreases medida(s, e), 1nat,
{
    if e.pos < s.len() {
        let n = e.rotulos.len() as int;
        let e1 = e.em(e.pos + 1).rotula("repeat"@).emite(rotulo_nome(n) + "  NADA"@);
        lemma_comando_estende(s, vars, e1);
        if let Ok(e2) = comando(s, vars, e1) {
            if e2.pos < s.len() && e2.pos > e.pos {
                lemma_repete_laco_estende(s, vars, e2);
                lemma_repete_depois_estende(s, vars, n, repete_laco(s, vars, e2));
            }
        }
    }
}

proof fn lemma_repete_depois_estende(
    s: Seq<(Seq<char>, Tokens)>,
    vars: Seq<(Seq<char>, i32)>,
    n: int,
    r0: Result<Estado, crate::gerador_mepa::ErroGeracao>,
)
    ensures
        r0 matches Ok(e3) ==> (repete_depois(s, vars, n, r0) matches Ok(r) ==> estende(e3, r)),
{
    if let Ok(e3) = r0 {
        if e3.pos < s.len() {
            if let Some((expr, p)) = le_expr(s, e3.pos + 1, Tokens::PontoVirgula, Tokens::PontoVirgula) {
                lemma_traduz_em_estende(e3.em(p), expr, vars);
            }
        }
    }
}

proof fn lemma_repete_laco_estende(s: Seq<(Seq<char>, Tokens)>, vars: Seq<(Seq<char>, i32)>, e: Estado)
    ensures
        repete_laco(s, vars, e) matches Ok(r) ==> estende(e, r),
    decreases medida(s, e), 5nat,
{
    if e.pos < s.len() && s[e.pos as int].1 != Tokens::Until {
        lemma_comando_estende(s, vars, e);
        if let Ok(e2) = comando(s, vars, e) {
            if e2.pos > e.pos {
                lemma_repete_laco_estende(s, vars, e2);
            }
        }
    }
}

/// An `if` read from `e` to `r`: the code it adds holds the jump `DSVF` to
/// the `if`'s own label (the next label to make, `n`) and, after it, that
/// label placed (`NADA`); and it ends by placing a label it made: label `n`
/// itself, or, where an `else` followed, the label that a `DSVS` in the added
/// code names.
pub proof fn lei_se_coloca_seu_rotulo(
    s: Seq<(Seq<char>, Tokens)>,
    vars: Seq<(Seq<char>, i32)>,
    e: Estado,
    r: Estado,
)
    requires
        se(s, vars, e) == Ok::<Estado, crate::gerador_mepa::ErroGeracao>(r),
    ensures
        exists|i: int, j: int|
            e.codigo.len() <= i < j < r.codigo.len() && #[trigger] r.codigo[i] == "DSVF "@ + rotulo_nome(
                e.rotulos.len() as int,
            ) && #[trigger] r.codigo[j] == rotulo_nome(e.rotulos.len() as int) + " NADA"@,
        r.codigo.last() == rotulo_nome(e.rotulos.len() as int) + " NADA"@ || exists|m: int, i: int|
            #![trigger r.codigo[i], rotulo_nome(m)]
            e.rotulos.len() < m < r.rotulos.len() && e.codigo.len() <= i < r.codigo.len() && r.codigo[i]
                == "DSVS "@ + rotulo_nome(m) && r.codigo.last() == rotulo_nome(m) + " NADA"@,
{
    let (expr, p) = le_expr(s, e.pos + 1, Tokens::Then, Tokens::Then)->Some_0;
    lemma_traduz_em_estende(e.em(p), expr, vars);
    let e1 = traduz_em(e.em(p), expr, vars)->Ok_0;
    let n = e1.rotulos.len() as int;
    assert(n == e.rotulos.len());
    let e2 = e1.rotula("if"@).emite("DSVF "@ + rotulo_nome(n));
    lemma_le_expr(s, e.pos + 1, Tokens::Then, Tokens::Then);
    lemma_comando_estende(s, vars, e2);
    let e3 = comando(s, vars, e2)->Ok_0;
    let i = e2.codigo.len() - 1;
    assert(e3.codigo[i] == "DSVF "@ + rotulo_nome(n));
    if s[e3.pos as int].1 != Tokens::Else {
        assert(r == e3.emite(rotulo_nome(n) + " NADA"@));
        let j = r.codigo.len() - 1;
        assert(r.codigo[i] == "DSVF "@ + rotulo_nome(n));
        assert(r.codigo[j] == rotulo_nome(n) + " NADA"@);
    } else {
        let m = e3.rotulos.len() as int;
        let e4 = e3.em(e3.pos + 1).rotula("else"@).emite("DSVS "@ + rotulo_nome(m)).emite(rotulo_nome(n) + " NADA"@);
        lemma_comando_estende(s, vars, e4);
        let e5 = comando(s, vars, e4)->Ok_0;
        assert(r == e5.emite(rotulo_nome(m) + " NADA"@));
        let j = e4.codigo.len() - 1;
        let d = e4.codigo.len() - 2;
        assert(e5.codigo[j] == e4.codigo[j]);
        assert(e5.codigo[i] == e4.codigo[i]);
        assert(e5.codigo[d] == e4.codigo[d]);
        assert(r.codigo[i] == "DSVF "@ + rotulo_nome(n));
        assert(r.codigo[j] == rotulo_nome(n) + " NADA"@);
        assert(r.codigo[d] == "DSVS "@ + rotulo_nome(m));
    }
}


/// A `while` read from `e` to `r`: the code it adds starts by placing its
/// own label `n` (the next label to make), holds a jump `DSVF` to the next
/// label, `n + 1`, and ends with the jump `DSVS` back to label `n` and
/// label `n + 1` placed.
pub proof fn lei_enquanto_coloca_seus_rotulos(
    s: Seq<(Seq<char>, Tokens)>,
    vars: Seq<(Seq<char>, i32)>,
    e: Estado,
    r: Estado,
)
    requires
        enquanto(s, vars, e) == Ok::<Estado, crate::gerador_mepa::ErroGeracao>(r),
    ensures
        r.codigo.len() >= e.codigo.len() + 4,
        r.codigo[e.codigo.len() as int] == rotulo_nome(e.rotulos.len() as int) + " NADA"@,
        exists|i: int|
            e.codigo.len() < i < r.codigo.len() - 2 && #[trigger] r.codigo[i] == "DSVF "@ + rotulo_nome(
                e.rotulos.len() + 1int,
            ),
        r.codigo[r.codigo.len() - 2] == "DSVS "@ + rotulo_nome(e.rotulos.len() as int),
        r.codigo.last() == rotulo_nome(e.rotulos.len() + 1int) + " NADA"@,
        r.rotulos.len() >= e.rotulos.len() + 2,
{
    let n = e.rotulos.len() as int;
    let e1 = e.em(e.pos + 1).rotula("while"@).emite(rotulo_nome(n) + " NADA"@);
    let (expr, p) = le_expr(s, e.pos + 1, Tokens::Do, Tokens::Do)->Some_0;
    lemma_traduz_em_estende(e1.em(p), expr, vars);
    let e2 = traduz_em(e1.em(p), expr, vars)->Ok_0;
    let m = e2.rotulos.len() as int;
    assert(m == n + 1);
    let e3 = e2.rotula("do"@).emite("DSVF "@ + rotulo_nome(m));
    lemma_le_expr(s, e.pos + 1, Tokens::Do, Tokens::Do);
    lemma_comando_estende(s, vars, e3);
    let e4 = comando(s, vars, e3)->Ok_0;
    assert(r == e4.emite("DSVS "@ + rotulo_nome(n)).emite(rotulo_nome(m) + " NADA"@));
    let i = e3.codigo.len() - 1;
    let i0 = e.codigo.len() as int;
    assert(e4.codigo[i] == e3.codigo[i]);
    assert(e4.codigo[i0] == e3.codigo[i0]);
    assert(e3.codigo[i0] == e1.codigo[i0]);
    assert(r.codigo[i] == "DSVF "@ + rotulo_nome(m));
}

/// A `for` read from `e` to `r`: the code it adds places the `for`'s own
/// label `n` (the next label to make), then holds a jump `DSVF` to the next
/// label, `n + 1`, and ends with the jump `DSVS` back to label `n` and label
/// `n + 1` placed.
pub proof fn lei_para_coloca_seus_rotulos(
    s: Seq<(Seq<char>, Tokens)>,
    vars: Seq<(Seq<char>, i32)>,
    e: Estado,
    r: Estado,
)
    requires
        para(s, vars, e) == Ok::<Estado, crate::gerador_mepa::ErroGeracao>(r),
    ensures
        exists|i: int, j: int|
            e.codigo.len() <= i < j < r.codigo.len() - 2 && #[trigger] r.codigo[i] == rotulo_nome(
                e.rotulos.len() as int,
            ) + " NADA"@ && #[trigger] r.codigo[j] == "DSVF "@ + rotulo_nome(e.rotulos.len() + 1int),
        r.codigo[r.codigo.len() - 2] == "DSVS "@ + rotulo_nome(e.rotulos.len() as int),
        r.codigo.last() == rotulo_nome(e.rotulos.len() + 1int) + " NADA"@,
        r.rotulos.len() >= e.rotulos.len() + 2,
{
    let var_i = s[e.pos + 1int].0;
    let posicao = crate::texto::decimal(crate::gerador_mepa::procura_var_spec(vars, var_i) as int);
    let (expr, p) = le_expr(s, (e.pos + 3) as nat, Tokens::To, Tokens::Downto)->Some_0;
    lemma_traduz_em_estende(e.em(p), expr, vars);
    let e1 = traduz_em(e.em(p), expr, vars)->Ok_0;
    let n = e1.rotulos.len() as int;
    assert(n == e.rotulos.len());
    let e2 = e1.emite("AMRZ "@ + var_i).rotula("for"@).emite(rotulo_nome(n) + " NADA"@).emite("CRVL "@ + posicao);
    let (expr2, p2) = le_expr(s, p, Tokens::Do, Tokens::Do)->Some_0;
    lemma_traduz_em_estende(e2.em(p2), expr2, vars);
    let e3 = traduz_em(e2.em(p2), expr2, vars)->Ok_0;
    let m = e3.rotulos.len() as int;
    assert(m == n + 1);
    let e4 = e3.emite("CMEG"@).rotula("do"@).emite("DSVF "@ + rotulo_nome(m));
    lemma_le_expr(s, (e.pos + 3) as nat, Tokens::To, Tokens::Downto);
    lemma_le_expr(s, p, Tokens::Do, Tokens::Do);
    lemma_comando_estende(s, vars, e4);
    let e5 = comando(s, vars, e4)->Ok_0;
    let i = e2.codigo.len() - 2;
    let j = e4.codigo.len() - 1;
    assert(e3.codigo[i] == e2.codigo[i]);
    assert(e5.codigo[i] == e4.codigo[i]);
    assert(e5.codigo[j] == e4.codigo[j]);
    assert(r.codigo[i] == rotulo_nome(n) + " NADA"@);
    assert(r.codigo[j] == "DSVF "@ + rotulo_nome(m));
}

/// A `repeat` read from `e` to `r`: the code it adds starts by placing the
/// `repeat`'s own label `n` (the next label to make; written with two
/// spaces before `NADA`), and ends with the jump `DSVF` back to label `n`
/// and a later label placed.
pub proof fn lei_repete_coloca_seus_rotulos(
    s: Seq<(Seq<char>, Tokens)>,
    vars: Seq<(Seq<char>, i32)>,
    e: Estado,
    r: Estado,
)
    requires
        repete(s, vars, e) == Ok::<Estado, crate::gerador_mepa::ErroGeracao>(r),
    ensures
        r.codigo.len() >= e.codigo.len() + 3,
        r.codigo[e.codigo.len() as int] == rotulo_nome(e.rotulos.len() as int) + "  NADA"@,
        r.codigo[r.codigo.len() - 2] == "DSVF "@ + rotulo_nome(e.rotulos.len() as int),
        exists|m: int| e.rotulos.len() < m < r.rotulos.len() && r.codigo.last() == #[trigger] rotulo_nome(m) + " NADA"@,
{
    let n = e.rotulos.len() as int;
    let e1 = e.em(e.pos + 1).rotula("repeat"@).emite(rotulo_nome(n) + "  NADA"@);
    lemma_comando_estende(s, vars, e1);
    let e2 = comando(s, vars, e1)->Ok_0;
    lemma_repete_laco_estende(s, vars, e2);
    let e3 = repete_laco(s, vars, e2)->Ok_0;
    let (expr, p) = le_expr(s, e3.pos + 1, Tokens::PontoVirgula, Tokens::PontoVirgula)->Some_0;
    lemma_traduz_em_estende(e3.em(p), expr, vars);
    let e4 = traduz_em(e3.em(p), expr, vars)->Ok_0;
    let m = e4.rotulos.len() as int;
    assert(r == e4.emite("DSVF "@ + rotulo_nome(n)).rotula("until"@).emite(rotulo_nome(m) + " NADA"@));
    let i0 = e.codigo.len() as int;
    assert(e2.codigo[i0] == e1.codigo[i0]);
    assert(e3.codigo[i0] == e2.codigo[i0]);
    assert(e4.codigo[i0] == e3.codigo[i0]);
    assert(r.codigo[i0] == e4.codigo[i0]);
}

} // verus!
