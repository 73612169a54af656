//! A simpler MEPA code generator: it compiles the assignments of the
//! main block only, writes `SUB` and `DIV` for subtraction and division,
//! knows no `<>`, `and`, `true`, `false` or `else`, and writes each label
//! as `R` and its number when it makes it.
use vstd::prelude::*;
use crate::gerador_mepa::{confere, le_expr, primeiro, procura_var_spec, vista_textos, ErroGeracao, Estado, Traducao};
use crate::parser::{Simbolo, Variavel, vista_simbolos, vista_variaveis};
use crate::texto::{decimal, mesmo_texto, texto_i32};
use crate::tokens::Tokens;

verus! {

/// A label of the simpler generator: the construct that made it and its
/// number.
#[derive(Debug, PartialEq, Clone)]
pub struct Rotulo {
    pub tok: String,
    pub numero: i32,
}

/// The state of the simpler generator: the symbols and the position of the
/// next one to read, the variables, the reservations of memory to emit, the
/// code written so far, the labels made so far, the stack of operators, and
/// the number of the next label.
pub struct GeradorSimples {
    pub simbolos: Vec<Simbolo>,
    pub pos: usize,
    pub variaveis: Vec<Variavel>,
    pub codigo_amem: Vec<String>,
    pub codigo: Vec<String>,
    pub rotulos: Vec<Rotulo>,
    pub pilha: Vec<String>,
    pub contador_rotulo: i32,
}

/// The MEPA instruction of an operator, as the simpler generator names it
/// (compared as written); empty for anything else.
pub open spec fn instrucao_simples(t: Seq<char>) -> Seq<char> {
    if t == "+"@ {
        "SOMA"@
    } else if t == "-"@ {
        "SUB"@
    } else if t == "*"@ {
        "MULT"@
    } else if t == "/"@ {
        "DIV"@
    } else if t == ">"@ {
        "CMMA"@
    } else if t == ">="@ {
        "CMAG"@
    } else if t == "<"@ {
        "CMME"@
    } else if t == "<="@ {
        "CMEG"@
    } else if t == "="@ {
        "CMIG"@
    } else {
        Seq::empty()
    }
}

/// The priority of an incoming operator: `(` 3, `*` and `/` 2, anything
/// else 1.
pub open spec fn entrada_simples(a: Seq<char>) -> int {
    if a == "("@ {
        3
    } else if a == "*"@ || a == "/"@ {
        2
    } else {
        1
    }
}

/// The priority of an operator on the stack: `*` and `/` 2; `+`, `-` and
/// the relational symbols but `<>` 1; anything else 0.
pub open spec fn pilha_simples(b: Seq<char>) -> int {
    if b == "("@ {
        0
    } else if b == "*"@ || b == "/"@ {
        2
    } else if b == "+"@ || b == "-"@ || b == "="@ || b == "<"@ || b == "<="@ || b == ">"@ || b == ">="@ {
        1
    } else {
        0
    }
}

/// Whether operator `a` goes onto the stack above operator `b`.
pub open spec fn prioridade_simples(a: Seq<char>, b: Seq<char>) -> bool {
    entrada_simples(a) > pilha_simples(b)
}

/// A closing symbol (see `gerador_mepa::fecha`), with this generator's names.
pub open spec fn fecha_simples(t: Traducao) -> Option<Traducao>
    decreases t.pilha.len(),
{
    if t.pilha.len() == 0 {
        None
    } else if t.pilha.last() == "("@ {
        Some(Traducao { codigo: t.codigo, pilha: t.pilha.drop_last() })
    } else {
        fecha_simples(Traducao { codigo: t.codigo.push(instrucao_simples(t.pilha.last())), pilha: t.pilha.drop_last() })
    }
}

/// An operator (see `gerador_mepa::opera`), with this generator's priorities.
pub open spec fn opera_simples(t: Traducao, op: Seq<char>) -> Option<Traducao>
    decreases t.pilha.len(),
{
    if t.pilha.len() == 0 {
        if prioridade_simples(op, "None"@) {
            Some(Traducao { codigo: t.codigo, pilha: seq!["None"@, op] })
        } else {
            None
        }
    } else if prioridade_simples(op, t.pilha.last()) {
        Some(Traducao { codigo: t.codigo, pilha: t.pilha.push(op) })
    } else {
        opera_simples(Traducao { codigo: t.codigo.push(instrucao_simples(t.pilha.last())), pilha: t.pilha.drop_last() }, op)
    }
}

/// A closing symbol of an expression for the simpler generator.
pub open spec fn fechamento_simples(k: Tokens) -> bool {
    k == Tokens::FechaParenteses || k == Tokens::PontoVirgula || k == Tokens::Then || k == Tokens::Virgula
        || k == Tokens::Do
}

/// An operator of an expression for the simpler generator.
pub open spec fn operador_simples(k: Tokens) -> bool {
    k == Tokens::Mais || k == Tokens::Menos || k == Tokens::Multiplicacao || k == Tokens::Div || k == Tokens::Menor
        || k == Tokens::MenorIgual || k == Tokens::Maior || k == Tokens::MaiorIgual || k == Tokens::Igual
}

/// One symbol of an expression for the simpler generator.
pub open spec fn passo_simples(t: Traducao, s: (Seq<char>, Tokens), vars: Seq<(Seq<char>, i32)>) -> Option<Traducao> {
    let k = s.1;
    if k == Tokens::Numero {
        Some(Traducao { codigo: t.codigo.push("CRCT "@ + s.0), pilha: t.pilha })
    } else if k == Tokens::Identificador {
        Some(Traducao { codigo: t.codigo.push("CRVL "@ + decimal(procura_var_spec(vars, s.0) as int)), pilha: t.pilha })
    } else if k == Tokens::AbreParenteses {
        Some(Traducao { codigo: t.codigo, pilha: t.pilha.push("("@) })
    } else if fechamento_simples(k) {
        fecha_simples(t)
    } else if operador_simples(k) {
        opera_simples(t, s.0)
    } else {
        Some(t)
    }
}

/// An expression's symbols, one after the other, for the simpler generator.
pub open spec fn traduz_simples(t: Traducao, e: Seq<(Seq<char>, Tokens)>, vars: Seq<(Seq<char>, i32)>) -> Option<Traducao>
    decreases e.len(),
{
    if e.len() == 0 {
        Some(t)
    } else {
        match traduz_simples(t, e.drop_last(), vars) {
            None => None,
            Some(t2) => passo_simples(t2, e.last(), vars),
        }
    }
}

proof fn lemma_traduz_simples_none(t: Traducao, e: Seq<(Seq<char>, Tokens)>, vars: Seq<(Seq<char>, i32)>, k: int)
    requires
        0 <= k <= e.len(),
        traduz_simples(t, e.subrange(0, k), vars) is None,
    ensures
        traduz_simples(t, e, vars) is None,
    decreases e.len(),
{
    if k == e.len() {
        assert(e.subrange(0, k) =~= e);
    } else {
        assert(e.drop_last().subrange(0, k) =~= e.subrange(0, k));
        lemma_traduz_simples_none(t, e.drop_last(), vars, k);
    }
}

/// The compilation of an expression by the simpler generator into the code
/// and stack of `e`: a `(` goes onto the stack, then its symbols are read.
pub open spec fn traduz_simples_em(e: Estado, expr: Seq<(Seq<char>, Tokens)>, vars: Seq<(Seq<char>, i32)>) -> Result<Estado, ErroGeracao> {
    match traduz_simples(Traducao { codigo: e.codigo, pilha: e.pilha.push("("@) }, expr, vars) {
        None => Err(ErroGeracao::SemFim),
        Some(t) => Ok(e.com(t)),
    }
}

/// An assignment for the simpler generator, from `e`: the variable and `:=`
/// are read; when the variable is declared, the expression up to and
/// including the first `;` is read and compiled, a `;` that follows it is
/// read, and the value is stored in the variable's position (`ARMZ`).
pub open spec fn atribuicao_simples(s: Seq<(Seq<char>, Tokens)>, vars: Seq<(Seq<char>, i32)>, e: Estado) -> Result<Estado, ErroGeracao> {
    if e.pos + 2 > s.len() {
        Err(ErroGeracao::FimInesperado)
    } else {
        let posicao = procura_var_spec(vars, s[e.pos as int].0);
        let p = (e.pos + 2) as nat;
        if posicao < 0 {
            Ok(e.em(p))
        } else {
            match le_expr(s, p, Tokens::PontoVirgula, Tokens::PontoVirgula) {
                None => Err(ErroGeracao::FimInesperado),
                Some((expr, q)) => match traduz_simples_em(e.em(q), expr, vars) {
                    Err(k) => Err(k),
                    Ok(e2) => if q >= s.len() {
                        Err(ErroGeracao::FimInesperado)
                    } else {
                        let fim: nat = if s[q as int].1 == Tokens::PontoVirgula { q + 1 } else { q };
                        Ok(e2.em(fim).emite("ARMZ "@ + decimal(posicao as int)))
                    },
                },
            }
        }
    }
}

/// The assignments of a block for the simpler generator, from `e`, up to the
/// first `end` after one, left to read; a symbol that is neither an
/// identifier nor `end` would be read again without end, and so would an
/// assignment that read nothing (none does).
pub open spec fn sequencia_simples(s: Seq<(Seq<char>, Tokens)>, vars: Seq<(Seq<char>, i32)>, e: Estado) -> Result<Estado, ErroGeracao>
    decreases s.len() - e.pos,
{
    if e.pos >= s.len() {
        Err(ErroGeracao::FimInesperado)
    } else {
        let k = s[e.pos as int].1;
        let passo = if k == Tokens::Identificador {
            atribuicao_simples(s, vars, e)
        } else if k == Tokens::End {
            Ok(e)
        } else {
            Err(ErroGeracao::SemFim)
        };
        match passo {
            Err(x) => Err(x),
            Ok(e2) => if e2.pos >= s.len() {
                Err(ErroGeracao::FimInesperado)
            } else if s[e2.pos as int].1 == Tokens::End {
                Ok(e2)
            } else if e2.pos <= e.pos {
                Err(ErroGeracao::SemFim)
            } else {
                sequencia_simples(s, vars, e2)
            },
        }
    }
}

/// The block for the simpler generator, from `e`: a `begin` there is read
/// first, then the assignments (see `sequencia_simples`).
pub open spec fn bloco_simples(s: Seq<(Seq<char>, Tokens)>, vars: Seq<(Seq<char>, i32)>, e: Estado) -> Result<Estado, ErroGeracao> {
    if e.pos >= s.len() {
        Err(ErroGeracao::FimInesperado)
    } else {
        let e1 = if s[e.pos as int].1 == Tokens::Begin { e.em(e.pos + 1) } else { e };
        sequencia_simples(s, vars, e1)
    }
}

/// The whole program for the simpler generator, from `e`: `INPP`, the
/// symbols up to the first `begin` passed over and that `begin` read, the
/// reservations of memory `amem` written, then the block.
pub open spec fn leitura_simples(
    s: Seq<(Seq<char>, Tokens)>,
    vars: Seq<(Seq<char>, i32)>,
    amem: Seq<Seq<char>>,
    e: Estado,
) -> Result<Estado, ErroGeracao> {
    let q = primeiro(s, e.pos, Tokens::Begin, Tokens::Begin);
    if q >= s.len() {
        Err(ErroGeracao::FimInesperado)
    } else {
        bloco_simples(s, vars, Estado { pos: (q + 1) as nat, codigo: e.codigo.push("INPP"@) + amem, pilha: e.pilha, rotulos: e.rotulos })
    }
}

/// The constructs that made the labels of the simpler generator.
pub open spec fn toks_simples(rs: Seq<Rotulo>) -> Seq<Seq<char>> {
    rs.map_values(|r: Rotulo| r.tok@)
}

fn junta(a: &str, b: &str) -> (r: String)
    ensures
        r@ == a@ + b@,
{
    let mut s = a.to_owned();
    s.append(b);
    s
}

/// The MEPA instruction of an operator (see `instrucao_simples`).
pub fn instrucao(token: &String) -> (r: String)
    ensures
        r@ == instrucao_simples(token@),
{
    let l = token.as_str();
    if mesmo_texto(l, "+") {
        "SOMA".to_owned()
    } else if mesmo_texto(l, "-") {
        "SUB".to_owned()
    } else if mesmo_texto(l, "*") {
        "MULT".to_owned()
    } else if mesmo_texto(l, "/") {
        "DIV".to_owned()
    } else if mesmo_texto(l, ">") {
        "CMMA".to_owned()
    } else if mesmo_texto(l, ">=") {
        "CMAG".to_owned()
    } else if mesmo_texto(l, "<") {
        "CMME".to_owned()
    } else if mesmo_texto(l, "<=") {
        "CMEG".to_owned()
    } else if mesmo_texto(l, "=") {
        "CMIG".to_owned()
    } else {
        String::new()
    }
}

/// Whether operator `a` goes onto the stack above operator `b` (see
/// `prioridade_simples`).
pub fn prioridade(a: &String, b: &String) -> (r: bool)
    ensures
        r == prioridade_simples(a@, b@),
{
    let sa = a.as_str();
    let sb = b.as_str();
    let pa: u8 = if mesmo_texto(sa, "(") {
        3
    } else if mesmo_texto(sa, "*") || mesmo_texto(sa, "/") {
        2
    } else {
        1
    };
    let pb: u8 = if mesmo_texto(sb, "(") {
        0
    } else if mesmo_texto(sb, "*") || mesmo_texto(sb, "/") {
        2
    } else if mesmo_texto(sb, "+") || mesmo_texto(sb, "-") || mesmo_texto(sb, "=") || mesmo_texto(sb, "<")
        || mesmo_texto(sb, "<=") || mesmo_texto(sb, ">") || mesmo_texto(sb, ">=") {
        1
    } else {
        0
    };
    pa > pb
}

impl GeradorSimples {
    /// The symbols, as plain values.
    pub open spec fn simbs(&self) -> Seq<(Seq<char>, Tokens)> {
        vista_simbolos(self.simbolos@)
    }

    /// The variables, as plain values.
    pub open spec fn vars(&self) -> Seq<(Seq<char>, i32)> {
        vista_variaveis(self.variaveis@)
    }

    /// The code written so far.
    pub open spec fn cod(&self) -> Seq<Seq<char>> {
        vista_textos(self.codigo@)
    }

    /// The stack of operators.
    pub open spec fn pil(&self) -> Seq<Seq<char>> {
        vista_textos(self.pilha@)
    }

    /// The code and the stack.
    pub open spec fn traducao(&self) -> Traducao {
        Traducao { codigo: self.cod(), pilha: self.pil() }
    }

    /// The state as plain values (see `gerador_mepa::Estado`).
    pub open spec fn estado(&self) -> Estado {
        Estado { pos: self.pos as nat, codigo: self.cod(), pilha: self.pil(), rotulos: toks_simples(self.rotulos@) }
    }

    /// The number of symbols still to read.
    pub open spec fn restantes(&self) -> nat {
        (self.simbolos.len() - self.pos) as nat
    }

    /// The next symbol, if any.
    pub open spec fn proximo(&self) -> Option<(Seq<char>, Tokens)> {
        if self.pos < self.simbolos.len() {
            Some(self.simbs()[self.pos as int])
        } else {
            None
        }
    }

    /// The state's invariant: the position is within the symbols; the labels
    /// are numbered from zero in order and the next number is their count.
    pub open spec fn wf(&self) -> bool {
        &&& self.pos <= self.simbolos.len()
        &&& self.contador_rotulo == self.rotulos.len()
        &&& forall|i: int| 0 <= i < self.rotulos.len() ==> (#[trigger] self.rotulos@[i]).numero == i
    }

    /// What every step keeps: the invariant, the symbols and variables,
    /// the labels; symbols are only read forward; code is only added after
    /// the code there.
    pub open spec fn passo_valido(&self, depois: &GeradorSimples) -> bool {
        &&& depois.wf()
        &&& depois.simbolos == self.simbolos
        &&& depois.variaveis == self.variaveis
        &&& depois.rotulos == self.rotulos
        &&& depois.contador_rotulo == self.contador_rotulo
        &&& depois.pos >= self.pos
        &&& depois.codigo.len() >= self.codigo.len()
        &&& forall|i: int| 0 <= i < self.codigo.len() ==> #[trigger] depois.cod()[i] == self.cod()[i]
    }

    /// The same symbols, variables, position, labels and reservations.
    pub open spec fn mesma_leitura(&self, depois: &GeradorSimples) -> bool {
        &&& depois.simbolos == self.simbolos
        &&& depois.pos == self.pos
        &&& depois.variaveis == self.variaveis
        &&& depois.codigo_amem == self.codigo_amem
        &&& depois.rotulos == self.rotulos
        &&& depois.contador_rotulo == self.contador_rotulo
    }

    /// The simpler generator at the start.
    pub fn new(simbolos: Vec<Simbolo>, variaveis: Vec<Variavel>, codigo_amem: Vec<String>) -> (g: GeradorSimples)
        ensures
            g.wf(),
            g.simbolos == simbolos,
            g.variaveis == variaveis,
            g.codigo_amem == codigo_amem,
            g.pos == 0,
            g.codigo@.len() == 0,
            g.pilha@.len() == 0,
            g.rotulos@.len() == 0,
    {
        GeradorSimples {
            simbolos,
            pos: 0,
            variaveis,
            codigo_amem,
            codigo: Vec::new(),
            rotulos: Vec::new(),
            pilha: Vec::new(),
            contador_rotulo: 0,
        }
    }

    fn prox_simbolo(&self) -> (r: Result<Simbolo, ErroGeracao>)
        ensures
            match self.proximo() {
                None => r == Err::<Simbolo, ErroGeracao>(ErroGeracao::FimInesperado),
                Some(s) => r matches Ok(x) && x.tok@ == s.0 && x.tipo == s.1,
            },
    {
        if self.pos >= self.simbolos.len() {
            return Err(ErroGeracao::FimInesperado);
        }
        let s = &self.simbolos[self.pos];
        Ok(Simbolo { tok: s.tok.clone(), tipo: s.tipo })
    }

    /// Reads the next symbol; the generator stops when there is none.
    pub fn consome(&mut self) -> (r: Result<(), ErroGeracao>)
        requires
            old(self).wf(),
        ensures
            old(self).pos < old(self).simbolos.len() ==> r is Ok && final(self).pos == old(self).pos + 1,
            old(self).pos >= old(self).simbolos.len() ==> r == Err::<(), ErroGeracao>(ErroGeracao::FimInesperado)
                && final(self).pos == old(self).pos,
            final(self).estado() == old(self).estado().em(final(self).pos as nat),
            final(self).codigo_amem == old(self).codigo_amem,
            final(self).codigo == old(self).codigo,
            final(self).pilha == old(self).pilha,
            old(self).passo_valido(final(self)),
    {
        if self.pos >= self.simbolos.len() {
            return Err(ErroGeracao::FimInesperado);
        }
        self.pos = self.pos + 1;
        Ok(())
    }

    /// Adds one instruction to the code.
    pub fn gera_mepa(&mut self, codigo: String)
        requires
            old(self).wf(),
        ensures
            final(self).cod() == old(self).cod().push(codigo@),
            final(self).estado() == old(self).estado().emite(codigo@),
            old(self).mesma_leitura(final(self)),
            final(self).pilha == old(self).pilha,
            old(self).passo_valido(final(self)),
    {
        let ghost antes = self.codigo@;
        self.codigo.push(codigo);
        assert(vista_textos(self.codigo@) =~= vista_textos(antes).push(codigo@));
    }

    /// Makes the next label, for the construct `token`, and writes its name,
    /// `R` and its number, to the code.
    pub fn cria_rotulo(&mut self, token: String)
        requires
            old(self).wf(),
            old(self).contador_rotulo < i32::MAX,
        ensures
            final(self).wf(),
            final(self).cod() == old(self).cod().push("R"@ + decimal(old(self).contador_rotulo as int)),
            final(self).rotulos@.len() == old(self).rotulos@.len() + 1,
            final(self).rotulos@.last().tok@ == token@,
            forall|i: int| 0 <= i < old(self).rotulos.len() ==> #[trigger] final(self).rotulos@[i] == old(self).rotulos@[i],
            final(self).contador_rotulo == old(self).contador_rotulo + 1,
            final(self).simbolos == old(self).simbolos,
            final(self).pos == old(self).pos,
            final(self).variaveis == old(self).variaveis,
            final(self).codigo_amem == old(self).codigo_amem,
            final(self).pilha == old(self).pilha,
    {
        let rotulo = Rotulo { tok: token, numero: self.contador_rotulo };
        self.gera_mepa(junta("R", texto_i32(self.contador_rotulo).as_str()));
        self.rotulos.push(rotulo);
        self.contador_rotulo = self.contador_rotulo + 1;
    }

    /// Pushes an operator onto the stack.
    pub fn empilha(&mut self, x: String)
        ensures
            final(self).pil() == old(self).pil().push(x@),
            old(self).mesma_leitura(final(self)),
            final(self).codigo == old(self).codigo,
    {
        let ghost antes = self.pilha@;
        self.pilha.push(x);
        assert(vista_textos(self.pilha@) =~= vista_textos(antes).push(x@));
    }

    /// Pops the operator on top of the stack; the text `None` when the stack
    /// is empty.
    pub fn desempilha(&mut self) -> (r: String)
        ensures
            old(self).pil().len() == 0 ==> r@ == "None"@ && final(self).pil() == old(self).pil(),
            old(self).pil().len() > 0 ==> r@ == old(self).pil().last() && final(self).pil() == old(self).pil().drop_last(),
            old(self).mesma_leitura(final(self)),
            final(self).codigo == old(self).codigo,
    {
        let ghost antes = self.pilha@;
        match self.pilha.pop() {
            Some(x) => {
                assert(vista_textos(self.pilha@) =~= vista_textos(antes).drop_last());
                x
            },
            None => "None".to_owned(),
        }
    }

    fn procura_var(&self, tok: &String) -> (r: i32)
        ensures
            r == procura_var_spec(self.vars(), tok@),
    {
        let mut i: usize = 0;
        assert(self.vars().subrange(0, self.vars().len() as int) =~= self.vars());
        while i < self.variaveis.len()
            invariant
                i <= self.variaveis.len(),
                procura_var_spec(self.vars().subrange(i as int, self.vars().len() as int), tok@) == procura_var_spec(self.vars(), tok@),
            decreases self.variaveis.len() - i,
        {
            let ghost resto = self.vars().subrange(i as int, self.vars().len() as int);
            assert(resto[0] == (self.variaveis@[i as int].tok@, self.variaveis@[i as int].posicao));
            if self.variaveis[i].tok == *tok {
                return self.variaveis[i].posicao;
            }
            assert(resto.drop_first() =~= self.vars().subrange(i + 1, self.vars().len() as int));
            i = i + 1;
        }
        assert(self.vars().subrange(i as int, self.vars().len() as int) =~= Seq::<(Seq<char>, i32)>::empty());
        -1
    }

    /// The code of `depois` starts with the code of this state.
    pub open spec fn codigo_estende(&self, depois: &GeradorSimples) -> bool {
        &&& depois.codigo.len() >= self.codigo.len()
        &&& forall|i: int| 0 <= i < self.codigo.len() ==> #[trigger] depois.cod()[i] == self.cod()[i]
    }

    /// Compiles an expression: a `(` goes onto the stack, then its symbols
    /// are read (see `passo_simples`).
    pub fn expressao_mepa(&mut self, expr: Vec<Simbolo>) -> (r: Result<(), ErroGeracao>)
        requires
            old(self).wf(),
        ensures
            match traduz_simples(
                Traducao { codigo: old(self).cod(), pilha: old(self).pil().push("("@) },
                vista_simbolos(expr@),
                old(self).vars(),
            ) {
                None => r == Err::<(), ErroGeracao>(ErroGeracao::SemFim),
                Some(t) => r is Ok && final(self).traducao() == t && final(self).estado() == old(self).estado().com(t),
            },
            old(self).mesma_leitura(final(self)),
            old(self).passo_valido(final(self)),
    {
        let ghost e = vista_simbolos(expr@);
        let ghost vars = self.vars();
        let mut i: usize = 0;
        self.empilha("(".to_owned());
        let ghost t0 = self.traducao();
        assert(e.subrange(0, 0) =~= Seq::<(Seq<char>, Tokens)>::empty());
        while i < expr.len()
            invariant
                e == vista_simbolos(expr@),
                vars == self.vars(),
                t0 == (Traducao { codigo: old(self).cod(), pilha: old(self).pil().push("("@) }),
                i <= expr.len(),
                traduz_simples(t0, e.subrange(0, i as int), vars) == Some(self.traducao()),
                self.wf(),
                old(self).mesma_leitura(self),
                old(self).codigo_estende(self),
            decreases expr.len() - i,
        {
            let ghost antes = self.traducao();
            assert(e.subrange(0, i + 1).drop_last() =~= e.subrange(0, i as int));
            assert(e.subrange(0, i + 1).last() == e[i as int]);
            assert(e[i as int] == (expr@[i as int].tok@, expr@[i as int].tipo));
            let simbolo = &expr[i];
            match simbolo.tipo {
                Tokens::Numero => {
                    self.gera_mepa(junta("CRCT ", simbolo.tok.as_str()));
                },
                Tokens::Identificador => {
                    let posicao = self.procura_var(&simbolo.tok);
                    self.gera_mepa(junta("CRVL ", texto_i32(posicao).as_str()));
                },
                Tokens::AbreParenteses => {
                    self.empilha("(".to_owned());
                },
                Tokens::FechaParenteses | Tokens::PontoVirgula | Tokens::Then | Tokens::Virgula | Tokens::Do => {
                    let ghost alvo = fecha_simples(antes);
                    loop
                        invariant_except_break
                            fecha_simples(self.traducao()) == alvo,
                        invariant
                            self.wf(),
                            old(self).mesma_leitura(self),
                            old(self).codigo_estende(self),
                            vars == self.vars(),
                            e == vista_simbolos(expr@),
                            i < expr.len(),
                            t0 == (Traducao { codigo: old(self).cod(), pilha: old(self).pil().push("("@) }),
                            traduz_simples(t0, e.subrange(0, i + 1), vars) == alvo,
                        ensures
                            alvo == Some(self.traducao()),
                        decreases self.pilha.len(),
                    {
                        if self.pilha.len() == 0 {
                            proof {
                                lemma_traduz_simples_none(t0, e, vars, i + 1);
                            }
                            return Err(ErroGeracao::SemFim);
                        }
                        assert(self.pil().len() > 0);
                        let aux = self.desempilha();
                        if !mesmo_texto(aux.as_str(), "(") {
                            let inst = instrucao(&aux);
                            self.gera_mepa(inst);
                        } else {
                            break;
                        }
                    }
                },
                Tokens::Mais | Tokens::Menos | Tokens::Multiplicacao | Tokens::Div | Tokens::Menor
                | Tokens::MenorIgual | Tokens::Maior | Tokens::MaiorIgual | Tokens::Igual => {
                    let ghost alvo = opera_simples(antes, simbolo.tok@);
                    loop
                        invariant_except_break
                            opera_simples(self.traducao(), simbolo.tok@) == alvo,
                        invariant
                            self.wf(),
                            old(self).mesma_leitura(self),
                            old(self).codigo_estende(self),
                            vars == self.vars(),
                            e == vista_simbolos(expr@),
                            i < expr.len(),
                            t0 == (Traducao { codigo: old(self).cod(), pilha: old(self).pil().push("("@) }),
                            traduz_simples(t0, e.subrange(0, i + 1), vars) == alvo,
                        ensures
                            alvo == Some(self.traducao()),
                        decreases self.pilha.len(),
                    {
                        let vazia = self.pilha.len() == 0;
                        let ghost p0 = self.pil();
                        let aux = self.desempilha();
                        let aux2 = aux.clone();
                        if prioridade(&simbolo.tok, &aux) {
                            self.empilha(aux2);
                            self.empilha(simbolo.tok.clone());
                            proof {
                                if vazia {
                                    assert(self.pil() =~= seq!["None"@, simbolo.tok@]);
                                } else {
                                    assert(self.pil() =~= p0.push(simbolo.tok@));
                                }
                            }
                            break;
                        } else {
                            if vazia {
                                proof {
                                    lemma_traduz_simples_none(t0, e, vars, i + 1);
                                }
                                return Err(ErroGeracao::SemFim);
                            }
                            self.gera_mepa(instrucao(&aux2));
                        }
                    }
                },
                _ => {},
            }
            i = i + 1;
        }
        assert(e.subrange(0, i as int) =~= e);
        Ok(())
    }

    // Reads the symbols of an expression from the next one (see `le_expr`):
    // the first whatever it is, up to and including the first `;`.
    fn le_expressao(&mut self) -> (r: Result<Vec<Simbolo>, ErroGeracao>)
        requires
            old(self).wf(),
        ensures
            old(self).passo_valido(final(self)),
            final(self).codigo == old(self).codigo,
            final(self).pilha == old(self).pilha,
            final(self).codigo_amem == old(self).codigo_amem,
            final(self).estado() == old(self).estado().em(final(self).pos as nat),
            match le_expr(old(self).simbs(), old(self).pos as nat, Tokens::PontoVirgula, Tokens::PontoVirgula) {
                None => r == Err::<Vec<Simbolo>, ErroGeracao>(ErroGeracao::FimInesperado),
                Some((ex, p)) => r matches Ok(v) && vista_simbolos(v@) == ex && final(self).pos == p,
            },
    {
        let ghost s = self.simbs();
        let ghost p0 = self.pos as nat;
        let mut expressao = vec![self.prox_simbolo()?];
        self.consome()?;
        assert(vista_simbolos(expressao@) =~= s.subrange(p0 as int, self.pos as int));
        loop
            invariant_except_break
                vista_simbolos(expressao@) == s.subrange(p0 as int, self.pos as int),
                primeiro(s, p0 + 1, Tokens::PontoVirgula, Tokens::PontoVirgula) == primeiro(
                    s,
                    self.pos as nat,
                    Tokens::PontoVirgula,
                    Tokens::PontoVirgula,
                ),
            invariant
                s == self.simbs(),
                p0 == old(self).pos,
                p0 < s.len(),
                self.pos >= p0 + 1,
                old(self).passo_valido(self),
                self.codigo == old(self).codigo,
                self.pilha == old(self).pilha,
                self.codigo_amem == old(self).codigo_amem,
                self.estado() == old(self).estado().em(self.pos as nat),
            ensures
                le_expr(s, p0, Tokens::PontoVirgula, Tokens::PontoVirgula) matches Some((ex, p)) && vista_simbolos(
                    expressao@,
                ) == ex && self.pos == p,
            decreases self.restantes(),
        {
            let simbolo = self.prox_simbolo()?;
            let ghost q = self.pos;
            let ghost antes = expressao@;
            let x = self.prox_simbolo()?;
            expressao.push(x);
            assert(vista_simbolos(expressao@) =~= vista_simbolos(antes).push((x.tok@, x.tipo)));
            self.consome()?;
            if simbolo.tipo == Tokens::PontoVirgula {
                assert(primeiro(s, q as nat, Tokens::PontoVirgula, Tokens::PontoVirgula) == q);
                assert(vista_simbolos(expressao@) =~= s.subrange(p0 as int, q + 1));
                break;
            }
            assert(vista_simbolos(expressao@) =~= s.subrange(p0 as int, self.pos as int));
        }
        Ok(expressao)
    }

    /// Writes the code of the program (see `leitura_simples`): `INPP`; the
    /// symbols up to the first `begin` are passed over, and that `begin`
    /// too; the reservations of memory are moved to the code; then the
    /// assignments of the block.
    #[verifier::rlimit(60)]
    pub fn inicio_leitura(&mut self) -> (r: Result<(), ErroGeracao>)
        requires
            old(self).wf(),
        ensures
            old(self).passo_valido(final(self)),
            confere(
                r,
                final(self).estado(),
                leitura_simples(old(self).simbs(), old(self).vars(), vista_textos(old(self).codigo_amem@), old(self).estado()),
            ),
            r is Ok ==> final(self).codigo_amem@.len() == 0,
    {
        let ghost s = self.simbs();
        let ghost e0 = self.estado();
        let ghost amem = vista_textos(self.codigo_amem@);
        self.gera_mepa("INPP".to_owned());
        loop
            invariant_except_break
                primeiro(s, e0.pos, Tokens::Begin, Tokens::Begin) == primeiro(s, self.pos as nat, Tokens::Begin, Tokens::Begin),
            invariant
                old(self).passo_valido(self),
                s == self.simbs(),
                e0 == old(self).estado(),
                amem == vista_textos(old(self).codigo_amem@),
                self.codigo_amem == old(self).codigo_amem,
                self.estado() == e0.emite("INPP"@).em(self.pos as nat),
            ensures
                primeiro(s, e0.pos, Tokens::Begin, Tokens::Begin) == self.pos,
                self.pos < s.len(),
            decreases self.restantes(),
        {
            let x = self.prox_simbolo()?;
            if x.tipo == Tokens::Begin {
                break;
            }
            self.consome()?;
        }
        self.consome()?;
        let ghost base = self.estado();
        assert(amem.subrange(0, 0) =~= Seq::<Seq<char>>::empty());
        assert(base.codigo + amem.subrange(0, 0) =~= base.codigo);
        while self.codigo_amem.len() > 0
            invariant
                old(self).passo_valido(self),
                s == self.simbs(),
                self.codigo_amem@.len() <= amem.len(),
                vista_textos(self.codigo_amem@) == amem.subrange(amem.len() - self.codigo_amem@.len(), amem.len() as int),
                self.estado() == (Estado {
                    pos: base.pos,
                    codigo: base.codigo + amem.subrange(0, amem.len() - self.codigo_amem@.len()),
                    pilha: base.pilha,
                    rotulos: base.rotulos,
                }),
            decreases self.codigo_amem.len(),
        {
            let ghost k = amem.len() - self.codigo_amem@.len();
            let ghost resto = self.codigo_amem@;
            assert(vista_textos(resto)[0] == resto[0]@);
            let c = self.codigo_amem.remove(0);
            assert(c@ == amem[k]);
            assert(vista_textos(self.codigo_amem@) =~= vista_textos(resto).drop_first());
            assert(base.codigo + amem.subrange(0, k + 1) =~= (base.codigo + amem.subrange(0, k)).push(c@));
            self.gera_mepa(c);
        }
        assert(amem.subrange(0, amem.len() as int) =~= amem);
        self.inicio_programa()
    }

    /// Compiles the assignments of the block (see `bloco_simples`) up to
    /// its `end`, which is left to read.
    pub fn inicio_programa(&mut self) -> (r: Result<(), ErroGeracao>)
        requires
            old(self).wf(),
        ensures
            old(self).passo_valido(final(self)),
            final(self).codigo_amem == old(self).codigo_amem,
            confere(r, final(self).estado(), bloco_simples(old(self).simbs(), old(self).vars(), old(self).estado())),
    {
        let ghost s = self.simbs();
        let ghost vars = self.vars();
        let mut simbolo = self.prox_simbolo()?;
        if simbolo.tipo == Tokens::Begin {
            self.consome()?;
        }
        simbolo = self.prox_simbolo()?;
        loop
            invariant_except_break
                bloco_simples(s, vars, old(self).estado()) == sequencia_simples(s, vars, self.estado()),
            invariant
                old(self).passo_valido(self),
                self.codigo_amem == old(self).codigo_amem,
                s == self.simbs(),
                vars == self.vars(),
                self.proximo() matches Some(x) && x.1 == simbolo.tipo,
            ensures
                bloco_simples(s, vars, old(self).estado()) == Ok::<Estado, ErroGeracao>(self.estado()),
            decreases self.restantes(),
        {
            match simbolo.tipo {
                Tokens::Identificador => self.atribuicao()?,
                _ => {
                    if simbolo.tipo != Tokens::End {
                        return Err(ErroGeracao::SemFim);
                    }
                },
            }
            simbolo = self.prox_simbolo()?;
            if simbolo.tipo == Tokens::End {
                break;
            }
        }
        Ok(())
    }

    /// An assignment (see `atribuicao_simples`).
    pub fn atribuicao(&mut self) -> (r: Result<(), ErroGeracao>)
        requires
            old(self).wf(),
        ensures
            old(self).passo_valido(final(self)),
            final(self).codigo_amem == old(self).codigo_amem,
            confere(r, final(self).estado(), atribuicao_simples(old(self).simbs(), old(self).vars(), old(self).estado())),
            r is Ok ==> final(self).pos > old(self).pos,
    {
        let s0 = self.prox_simbolo()?;
        let posicao = self.procura_var(&s0.tok);
        self.consome()?;
        self.consome()?;
        if posicao >= 0 {
            let expressao = self.le_expressao()?;
            self.expressao_mepa(expressao)?;
            let simbolo = self.prox_simbolo()?;
            if simbolo.tipo == Tokens::PontoVirgula {
                self.consome()?;
            }
            self.gera_mepa(junta("ARMZ ", texto_i32(posicao).as_str()));
        }
        Ok(())
    }
}

} // verus!
