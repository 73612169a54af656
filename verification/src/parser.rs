//! The parser: a recursive-descent reader of the Pascal grammar that
//! takes the tokens from the lexer's table, one at a time, records every
//! token it accepts in the table of symbols, and numbers the variables that
//! the declarations introduce.
use vstd::prelude::*;
use crate::lexer::{TokenVista, vista_tabela, vista_tokens, sem_primeiro, eraseToken, getToken, hasToken, lookahead, size, vazio};
use crate::tokens::{Token, Tokens};
use crate::gramatica::{
    Falha, Leitura, Passo, prox, aceita, espera, identifier_g, sinal_g, relop_g, addop_g, mulop_g, string_g,
    string_laco, number_g, expr_g, simple_expr_g, simple_expr_laco, term_g, term_laco, factor_g, infipo_g,
    infipo_laco, expr_list_g, expr_list_laco, tipo_basico_ou_identificador_g, identifier_list_g,
    identifier_list_laco, number_list_g, number_list_laco, const_g, simple_type_g,
    simple_type_laco, set_of_g, type_g, array_g, array_laco, record_g, field_list_g, field_list_laco,
    label_declaration_part_g, const_definition_g, const_declaration_part_g, const_declaration_laco,
    type_definition_g, type_declaration_part_g, type_declaration_laco, declara_variavel_g,
    identifier_list_var_g, identifier_list_var_laco, var_declaration_g, var_declaration_part_g,
    var_declaration_laco, param_section_g, formal_parameters_g, formal_parameters_laco, assign_statement_g,
    procedure_call_g, goto_statement_g, internal_functions_g, statement_g, labeled_statement_g,
    compound_statement_g, compound_statement_laco, if_statement_g, while_statement_g, repeat_statement_g, repeat_statement_laco,
    for_statement_g, with_statement_g, with_statement_laco, case_statement_g, case_statement_laco, case_g,
    case_constantes, declaracoes_g, block_g, subroutine_declaration_part_g, subroutine_declaration_laco,
    procedure_declaration_g, function_declaration_g, program_g,
};

verus! {

/// A symbol accepted by the parser: the token's text and kind.
#[derive(Debug, PartialEq, Clone)]
pub struct Simbolo {
    pub tok: String,
    pub tipo: Tokens,
}

/// A declared variable and the position the parser gave it.
#[derive(Debug, PartialEq, Clone)]
pub struct Variavel {
    pub tok: String,
    pub posicao: i32,
}

/// Why the parser stopped.
#[derive(Debug, PartialEq, Clone)]
pub enum ErroSintatico {
    /// A token of another kind stood where the grammar wants `esperado`.
    TokenInesperado { encontrado: Token, esperado: Tokens },
    /// A variable was declared with a type that is not one of the basic ones;
    /// the text of the token found.
    TipoBasicoEsperado(String),
    /// A label was not a whole number; the text of the token found.
    NumeroInteiroEsperado(String),
    /// A `for` lacks `to` or `downto`; the text of the token found.
    DirecaoEsperada(String),
    /// The tokens ran out where the grammar wants one more.
    FimInesperado,
}

/// The state of the parser: the table of tokens still to read, the
/// line it reads from, the symbols accepted so far, the variables declared
/// so far, and the position the next variable gets.
pub struct Analisador {
    pub tokens: Vec<Vec<Token>>,
    pub linha: usize,
    pub tabela_simb: Vec<Simbolo>,
    pub tabela_variaveis: Vec<Variavel>,
    pub pos_atual: i32,
}

/// All the tokens of a table, line after line.
pub open spec fn achatar(t: Seq<Seq<TokenVista>>) -> Seq<TokenVista>
    decreases t.len(),
{
    if t.len() == 0 {
        Seq::empty()
    } else {
        t[0] + achatar(t.drop_first())
    }
}

/// A token's text and kind.
pub open spec fn par(t: TokenVista) -> (Seq<char>, Tokens) {
    (t.tok, t.tipo)
}

/// The texts and kinds of the symbols.
pub open spec fn vista_simbolos(s: Seq<Simbolo>) -> Seq<(Seq<char>, Tokens)> {
    s.map_values(|x: Simbolo| (x.tok@, x.tipo))
}

/// The texts and positions of the variables.
pub open spec fn vista_variaveis(s: Seq<Variavel>) -> Seq<(Seq<char>, i32)> {
    s.map_values(|x: Variavel| (x.tok@, x.posicao))
}

/// Taking the first token of line `l`, when every line before it is empty,
/// takes the first token of the whole table.
proof fn lemma_achatar_primeiro(t: Seq<Seq<TokenVista>>, l: int)
    requires
        0 <= l < t.len(),
        t[l].len() > 0,
        forall|k: int| 0 <= k < l ==> #[trigger] t[k].len() == 0,
    ensures
        achatar(t) == seq![t[l][0]] + achatar(sem_primeiro(t, l)),
    decreases l,
{
    let s = sem_primeiro(t, l);
    if l == 0 {
        assert(s.drop_first() =~= t.drop_first());
        assert(t[0] =~= seq![t[0][0]] + t[0].drop_first());
        assert(achatar(t) =~= seq![t[l][0]] + achatar(s));
    } else {
        assert(t[0].len() == 0);
        assert(s.drop_first() =~= sem_primeiro(t.drop_first(), l - 1));
        assert forall|k: int| 0 <= k < l - 1 implies #[trigger] t.drop_first()[k].len() == 0 by {
            assert(t.drop_first()[k] == t[k + 1]);
        }
        lemma_achatar_primeiro(t.drop_first(), l - 1);
        assert(t[0] =~= Seq::<TokenVista>::empty());
        assert(s[0] =~= Seq::<TokenVista>::empty());
        assert(achatar(t) =~= achatar(t.drop_first()));
        assert(achatar(s) =~= achatar(s.drop_first()));
    }
}

/// Why the parser stopped, as plain values.
pub open spec fn vista_erro(e: ErroSintatico) -> Falha {
    match e {
        ErroSintatico::TokenInesperado { encontrado, esperado } => Falha::TokenInesperado(encontrado@, esperado),
        ErroSintatico::TipoBasicoEsperado(s) => Falha::TipoBasicoEsperado(s@),
        ErroSintatico::NumeroInteiroEsperado(s) => Falha::NumeroInteiroEsperado(s@),
        ErroSintatico::DirecaoEsperada(s) => Falha::DirecaoEsperada(s@),
        ErroSintatico::FimInesperado => Falha::FimInesperado,
    }
}

/// A step's result against what the rules give: success with the rules'
/// state, or the same reason to stop; when the parser stops on a token, the
/// line it reads from starts with that token.
pub open spec fn confere_sint(r: Result<(), ErroSintatico>, depois: Leitura, esperado: Passo) -> bool {
    match esperado {
        Ok(e) => r is Ok && depois == e,
        Err(k) => {
            &&& r matches Err(x) && vista_erro(x) == k
            &&& k matches Falha::TokenInesperado(t, _) ==> {
                &&& 0 <= depois.linha < depois.tabela.len()
                &&& depois.tabela[depois.linha].len() > 0
                &&& depois.tabela[depois.linha][0] == t
            }
        },
    }
}

impl Analisador {
    /// The table of tokens still to read, as plain values.
    pub open spec fn tabela(&self) -> Seq<Seq<TokenVista>> {
        vista_tabela(self.tokens@)
    }

    /// The state as plain values (see `Leitura`).
    pub open spec fn leitura(&self) -> Leitura {
        Leitura {
            tabela: self.tabela(),
            linha: self.linha as int,
            simbolos: vista_simbolos(self.tabela_simb@),
            variaveis: vista_variaveis(self.tabela_variaveis@),
        }
    }

    /// The number of tokens still to read.
    pub open spec fn restantes(&self) -> nat {
        achatar(self.tabela()).len()
    }

    /// The symbols accepted so far, then the tokens still to read: what
    /// accepting a token leaves as it was.
    pub open spec fn fluxo(&self) -> Seq<(Seq<char>, Tokens)> {
        vista_simbolos(self.tabela_simb@) + achatar(self.tabela()).map_values(|t: TokenVista| par(t))
    }

    /// The state's invariant: the line read from is in the table or just
    /// past it, and every line before it is spent; the variables are numbered
    /// from zero in order and the next position is their count; and the
    /// positions still to give fit in an `i32`.
    pub open spec fn wf(&self) -> bool {
        &&& self.linha <= self.tokens.len()
        &&& forall|k: int| 0 <= k < self.linha ==> #[trigger] self.tokens@[k]@.len() == 0
        &&& self.pos_atual == self.tabela_variaveis.len()
        &&& forall|i: int|
            0 <= i < self.tabela_variaveis.len() ==> #[trigger] self.tabela_variaveis@[i].posicao == i
        &&& self.tabela_variaveis.len() + self.restantes() <= i32::MAX
    }

    /// The line from which the next token comes and that token: the current
    /// line, or the next one when the current line is spent. `None` when
    /// there is none.
    pub open spec fn proximo(&self) -> Option<(int, TokenVista)> {
        let t = self.tabela();
        if self.linha >= t.len() {
            None
        } else {
            let l = if t[self.linha as int].len() == 0 { self.linha + 1 } else { self.linha as int };
            if l >= t.len() || t[l].len() == 0 {
                None
            } else {
                Some((l, t[l][0]))
            }
        }
    }

    /// Whether `t` is the first token of the current line.
    pub open spec fn atual_eh(&self, t: TokenVista) -> bool {
        &&& self.linha < self.tokens.len()
        &&& self.tabela()[self.linha as int].len() > 0
        &&& self.tabela()[self.linha as int][0] == t
    }

    /// `depois` is this state with the first token of line `l` accepted.
    pub open spec fn aceitou(&self, depois: &Analisador, l: int) -> bool {
        &&& depois.tabela() == sem_primeiro(self.tabela(), l)
        &&& depois.linha == l
        &&& vista_simbolos(depois.tabela_simb@) == vista_simbolos(self.tabela_simb@).push(
            par(self.tabela()[l][0]),
        )
        &&& depois.tabela_variaveis == self.tabela_variaveis
        &&& depois.pos_atual == self.pos_atual
    }

    /// What every step of the parser keeps: the invariant, the order of the
    /// symbols and tokens, and no token is added to the ones still to read.
    pub open spec fn passo_valido(&self, depois: &Analisador) -> bool {
        &&& depois.wf()
        &&& depois.fluxo() == self.fluxo()
        &&& depois.restantes() <= self.restantes()
        &&& depois.tabela_simb.len() >= self.tabela_simb.len()
        &&& forall|i: int|
            0 <= i < self.tabela_simb.len() ==> #[trigger] vista_simbolos(depois.tabela_simb@)[i]
                == vista_simbolos(self.tabela_simb@)[i]
    }

    /// How a rule that starts with a token of kind `esperado` begins: when
    /// the next token is of that kind, it is the first symbol accepted;
    /// otherwise the parser stops on it, or on the end of the tokens.
    pub open spec fn comeca_por(&self, depois: &Analisador, r: Result<(), ErroSintatico>, esperado: Tokens) -> bool {
        match self.proximo() {
            None => r == Err::<(), ErroSintatico>(ErroSintatico::FimInesperado),
            Some((l, t)) => if t.tipo == esperado {
                &&& depois.tabela_simb.len() > self.tabela_simb.len()
                &&& vista_simbolos(depois.tabela_simb@)[self.tabela_simb.len() as int] == par(t)
            } else {
                (r matches Err(ErroSintatico::TokenInesperado { encontrado, esperado: e }) && encontrado@ == t
                    && e == esperado)
            },
        }
    }
}

impl Analisador {
    /// The same state.
    pub open spec fn inalterado(&self, depois: &Analisador) -> bool {
        &&& depois.tokens == self.tokens
        &&& depois.linha == self.linha
        &&& depois.tabela_simb == self.tabela_simb
        &&& depois.tabela_variaveis == self.tabela_variaveis
        &&& depois.pos_atual == self.pos_atual
    }

    /// The same state, but for the line read from.
    pub open spec fn so_linha(&self, depois: &Analisador) -> bool {
        &&& depois.tokens == self.tokens
        &&& depois.tabela_simb == self.tabela_simb
        &&& depois.tabela_variaveis == self.tabela_variaveis
        &&& depois.pos_atual == self.pos_atual
    }

    /// The parser's state at the start: the table of tokens from the lexer,
    /// read from its first line, with no symbol and no variable.
    pub fn new(tokens: Vec<Vec<Token>>) -> (a: Analisador)
        requires
            achatar(vista_tabela(tokens@)).len() <= i32::MAX,
        ensures
            a.wf(),
            a.tokens == tokens,
            a.linha == 0,
            a.tabela_simb@.len() == 0,
            a.tabela_variaveis@.len() == 0,
    {
        Analisador { tokens, linha: 0, tabela_simb: Vec::new(), tabela_variaveis: Vec::new(), pos_atual: 0 }
    }

    /// The next token, without accepting it: the first of the current line,
    /// or of the next line when the current one is spent (the parser then
    /// reads from that line).
    fn prox_token(&mut self) -> (r: Result<Token, ErroSintatico>)
        requires
            old(self).wf(),
        ensures
            final(self).wf(),
            old(self).so_linha(final(self)),
            match old(self).proximo() {
                None => r == Err::<Token, ErroSintatico>(ErroSintatico::FimInesperado),
                Some((l, t)) => final(self).linha == l && final(self).atual_eh(t) && (r matches Ok(x) && x@ == t),
            },
            old(self).atual_eh(old(self).tabela()[old(self).linha as int][0]) ==> final(self).linha == old(self).linha,
            r is Ok ==> final(self).proximo() == old(self).proximo(),
            match prox(old(self).leitura()) {
                None => r == Err::<Token, ErroSintatico>(ErroSintatico::FimInesperado),
                Some((e2, t)) => r matches Ok(x) && x@ == t && final(self).leitura() == e2 && prox(e2) == Some((e2, t)),
            },
    {
        if self.linha >= self.tokens.len() {
            return Err(ErroSintatico::FimInesperado);
        }
        assert(self.tabela()[self.linha as int] == vista_tokens(self.tokens@[self.linha as int]@));
        if !hasToken(&self.tokens, self.linha) {
            self.linha = self.linha + 1;
        }
        if self.linha >= self.tokens.len() {
            return Err(ErroSintatico::FimInesperado);
        }
        assert(self.tabela()[self.linha as int] == vista_tokens(self.tokens@[self.linha as int]@));
        if !hasToken(&self.tokens, self.linha) {
            return Err(ErroSintatico::FimInesperado);
        }
        Ok(getToken(&self.tokens, self.linha))
    }

    /// Accepts token `t`, the first of the current line, when it is of kind
    /// `esperado`: it goes to the table of symbols and leaves the table of
    /// tokens. Else the parser stops on it.
    fn consome(&mut self, t: Token, esperado: Tokens) -> (r: Result<(), ErroSintatico>)
        requires
            old(self).wf(),
            old(self).atual_eh(t@),
        ensures
            confere_sint(r, final(self).leitura(), aceita(old(self).leitura(), t@, esperado)),
            if t.tipo == esperado {
                &&& r is Ok
                &&& old(self).aceitou(final(self), old(self).linha as int)
                &&& old(self).passo_valido(final(self))
                &&& final(self).restantes() + 1 == old(self).restantes()
            } else {
                &&& r == Err::<(), ErroSintatico>(ErroSintatico::TokenInesperado { encontrado: t, esperado })
                &&& old(self).inalterado(final(self))
            },
    {
        if t.tipo != esperado {
            return Err(ErroSintatico::TokenInesperado { encontrado: t, esperado });
        }
        let ghost antes = *self;
        let simb = Simbolo { tok: t.tok, tipo: t.tipo };
        self.tabela_simb.push(simb);
        assert(self.tabela()[self.linha as int] == vista_tokens(self.tokens@[self.linha as int]@));
        eraseToken(&mut self.tokens, self.linha);
        proof {
            let tb = antes.tabela();
            lemma_achatar_primeiro(tb, antes.linha as int);
            assert forall|k: int| 0 <= k < self.linha implies #[trigger] self.tokens@[k]@.len() == 0 by {
                assert(antes.tokens@[k]@.len() == 0);
                assert(vista_tabela(self.tokens@)[k] == vista_tokens(self.tokens@[k]@));
                assert(vista_tabela(antes.tokens@)[k] == vista_tokens(antes.tokens@[k]@));
            }
            assert(vista_simbolos(self.tabela_simb@) =~= vista_simbolos(antes.tabela_simb@).push(par(tb[antes.linha as int][0])));
            let f = |x: TokenVista| par(x);
            assert(achatar(tb).map_values(f) =~= seq![par(tb[antes.linha as int][0])] + achatar(self.tabela()).map_values(f));
            assert(self.fluxo() =~= antes.fluxo());
        }
        Ok(())
    }

    // The next token, accepted when it is of kind `k`.
    fn exige(&mut self, k: Tokens) -> (r: Result<(), ErroSintatico>)
        requires
            old(self).wf(),
        ensures
            confere_sint(r, final(self).leitura(), espera(old(self).leitura(), k)),
            old(self).passo_valido(final(self)),
            r is Ok ==> final(self).restantes() < old(self).restantes(),
    {
        let simbolo = self.prox_token()?;
        self.consome(simbolo, k)
    }

    // identifier ::= IDENTIFICADOR
    fn identifier(&mut self) -> (r: Result<(), ErroSintatico>)
        requires
            old(self).wf(),
        ensures
            confere_sint(r, final(self).leitura(), identifier_g(old(self).leitura())),
            old(self).comeca_por(final(self), r, Tokens::Identificador),
            old(self).passo_valido(final(self)),
            r is Ok ==> final(self).restantes() < old(self).restantes(),
    {
        let simbolo = self.prox_token()?;
        self.consome(simbolo, Tokens::Identificador)
    }
}

impl Analisador {
    /// Whether the current line still holds a token.
    pub open spec fn tem_atual(&self) -> bool {
        self.linha < self.tokens.len() && self.tabela()[self.linha as int].len() > 0
    }

    /// What looking at the next token does: the parser moves to its line
    /// (it stays where it is when the current line holds a token) and
    /// answers `pergunta` of its kind; it stops when there is none.
    pub open spec fn olha(&self, depois: &Analisador, r: Result<bool, ErroSintatico>, pergunta: spec_fn(Tokens) -> bool) -> bool {
        &&& depois.wf()
        &&& self.so_linha(depois)
        &&& self.tem_atual() ==> self.inalterado(depois)
        &&& match self.proximo() {
            None => r == Err::<bool, ErroSintatico>(ErroSintatico::FimInesperado),
            Some((l, t)) => depois.linha == l && depois.tem_atual() && depois.proximo() == self.proximo()
                && r == Ok::<bool, ErroSintatico>(pergunta(t.tipo)),
        }
    }

    // Whether the next token opens a string.
    fn ehString(&mut self) -> (r: Result<bool, ErroSintatico>)
        requires
            old(self).wf(),
        ensures
            old(self).olha(final(self), r, |k: Tokens| k == Tokens::Apostrofo || k == Tokens::Aspas),
            match prox(old(self).leitura()) {
                None => r == Err::<bool, ErroSintatico>(ErroSintatico::FimInesperado),
                Some((e2, t)) => r == Ok::<bool, ErroSintatico>(t.tipo == Tokens::Apostrofo || t.tipo == Tokens::Aspas) && final(self).leitura() == e2
                    && prox(e2) == Some((e2, t)),
            },
    {
        let simbolo = self.prox_token()?;
        Ok(simbolo.tipo == Tokens::Apostrofo || simbolo.tipo == Tokens::Aspas)
    }

    // Whether the next token is a sign.
    fn temSinal(&mut self) -> (r: Result<bool, ErroSintatico>)
        requires
            old(self).wf(),
        ensures
            old(self).olha(final(self), r, |k: Tokens| k == Tokens::Mais || k == Tokens::Menos),
            match prox(old(self).leitura()) {
                None => r == Err::<bool, ErroSintatico>(ErroSintatico::FimInesperado),
                Some((e2, t)) => r == Ok::<bool, ErroSintatico>(t.tipo == Tokens::Mais || t.tipo == Tokens::Menos) && final(self).leitura() == e2
                    && prox(e2) == Some((e2, t)),
            },
    {
        let simbolo = self.prox_token()?;
        Ok(simbolo.tipo == Tokens::Mais || simbolo.tipo == Tokens::Menos)
    }

    // sinal ::= + | -
    fn sinal(&mut self) -> (r: Result<(), ErroSintatico>)
        requires
            old(self).wf(),
        ensures
            confere_sint(r, final(self).leitura(), sinal_g(old(self).leitura())),
            old(self).passo_valido(final(self)),
            r is Ok ==> final(self).restantes() < old(self).restantes(),
    {
        let simbolo = self.prox_token()?;
        if simbolo.tipo == Tokens::Mais {
            self.consome(simbolo, Tokens::Mais)
        } else {
            self.consome(simbolo, Tokens::Menos)
        }
    }

    // relop ::= = | < | > | <> | >= | <= | in
    fn relop(&mut self) -> (r: Result<(), ErroSintatico>)
        requires
            old(self).wf(),
        ensures
            confere_sint(r, final(self).leitura(), relop_g(old(self).leitura())),
            old(self).passo_valido(final(self)),
            r is Ok ==> final(self).restantes() < old(self).restantes(),
    {
        let simbolo = self.prox_token()?;
        match simbolo.tipo {
            Tokens::Igual => self.consome(simbolo, Tokens::Igual),
            Tokens::Menor => self.consome(simbolo, Tokens::Menor),
            Tokens::Maior => self.consome(simbolo, Tokens::Maior),
            Tokens::Diferente => self.consome(simbolo, Tokens::Diferente),
            Tokens::MaiorIgual => self.consome(simbolo, Tokens::MaiorIgual),
            Tokens::MenorIgual => self.consome(simbolo, Tokens::MenorIgual),
            _ => self.consome(simbolo, Tokens::In),
        }
    }

    // addop ::= + | - | or
    fn addop(&mut self) -> (r: Result<(), ErroSintatico>)
        requires
            old(self).wf(),
        ensures
            confere_sint(r, final(self).leitura(), addop_g(old(self).leitura())),
            old(self).passo_valido(final(self)),
            r is Ok ==> final(self).restantes() < old(self).restantes(),
    {
        let simbolo = self.prox_token()?;
        if simbolo.tipo == Tokens::Mais {
            self.consome(simbolo, Tokens::Mais)
        } else if simbolo.tipo == Tokens::Menos {
            self.consome(simbolo, Tokens::Menos)
        } else {
            self.consome(simbolo, Tokens::Or)
        }
    }

    // mulop ::= * | / | div | mod | and
    fn mulop(&mut self) -> (r: Result<(), ErroSintatico>)
        requires
            old(self).wf(),
        ensures
            confere_sint(r, final(self).leitura(), mulop_g(old(self).leitura())),
            old(self).passo_valido(final(self)),
            r is Ok ==> final(self).restantes() < old(self).restantes(),
    {
        let simbolo = self.prox_token()?;
        if simbolo.tipo == Tokens::Multiplicacao {
            self.consome(simbolo, Tokens::Multiplicacao)
        } else if simbolo.tipo == Tokens::Divisao {
            self.consome(simbolo, Tokens::Divisao)
        } else if simbolo.tipo == Tokens::Div {
            self.consome(simbolo, Tokens::Div)
        } else if simbolo.tipo == Tokens::Mod {
            self.consome(simbolo, Tokens::Mod)
        } else {
            self.consome(simbolo, Tokens::And)
        }
    }

    // expr ::= simple_expr [ relop simple_expr ]
    fn expr(&mut self) -> (r: Result<(), ErroSintatico>)
        requires
            old(self).wf(),
        ensures
            confere_sint(r, final(self).leitura(), expr_g(old(self).leitura())),
            old(self).passo_valido(final(self)),
            r is Ok ==> final(self).restantes() < old(self).restantes(),
        decreases old(self).restantes(), 4nat,
    {
        self.simple_expr()?;
        let simbolo = self.prox_token()?;
        match simbolo.tipo {
            Tokens::Igual | Tokens::Menor | Tokens::Maior | Tokens::Diferente | Tokens::MaiorIgual
            | Tokens::MenorIgual | Tokens::In => {
                self.relop()?;
                self.simple_expr()?;
            },
            _ => {},
        }
        Ok(())
    }

    // simple_expr ::= [+|-] term { addop term }
    fn simple_expr(&mut self) -> (r: Result<(), ErroSintatico>)
        requires
            old(self).wf(),
        ensures
            confere_sint(r, final(self).leitura(), simple_expr_g(old(self).leitura())),
            old(self).passo_valido(final(self)),
            r is Ok ==> final(self).restantes() < old(self).restantes(),
        decreases old(self).restantes(), 3nat,
    {
        let ghost e0 = self.leitura();
        if self.temSinal()? {
            self.sinal()?;
        }
        self.term()?;
        let ghost e3 = self.leitura();
        let mut simbolo = self.prox_token()?;
        assert(simple_expr_laco(e3) == simple_expr_laco(self.leitura()));
        loop
            invariant_except_break
                simple_expr_g(e0) == simple_expr_laco(self.leitura()),
            invariant
                self.wf(),
                e0 == old(self).leitura(),
                old(self).passo_valido(self),
                self.restantes() < old(self).restantes(),
                self.atual_eh(simbolo@),
                prox(self.leitura()) == Some((self.leitura(), simbolo@)),
            ensures
                simple_expr_g(e0) == Ok::<Leitura, Falha>(self.leitura()),
            decreases self.restantes(),
        {
            if simbolo.tipo != Tokens::Mais && simbolo.tipo != Tokens::Menos && simbolo.tipo != Tokens::Or {
                break;
            }
            self.addop()?;
            self.term()?;
            let ghost e6 = self.leitura();
            simbolo = self.prox_token()?;
            assert(simple_expr_laco(e6) == simple_expr_laco(self.leitura()));
        }
        Ok(())
    }

    // term ::= factor { mulop factor }
    fn term(&mut self) -> (r: Result<(), ErroSintatico>)
        requires
            old(self).wf(),
        ensures
            confere_sint(r, final(self).leitura(), term_g(old(self).leitura())),
            old(self).passo_valido(final(self)),
            r is Ok ==> final(self).restantes() < old(self).restantes(),
        decreases old(self).restantes(), 2nat,
    {
        let ghost e0 = self.leitura();
        self.factor()?;
        let ghost e1 = self.leitura();
        let mut simbolo = self.prox_token()?;
        assert(term_laco(e1) == term_laco(self.leitura()));
        loop
            invariant_except_break
                term_g(e0) == term_laco(self.leitura()),
            invariant
                self.wf(),
                e0 == old(self).leitura(),
                old(self).passo_valido(self),
                self.restantes() < old(self).restantes(),
                self.atual_eh(simbolo@),
                prox(self.leitura()) == Some((self.leitura(), simbolo@)),
            ensures
                term_g(e0) == Ok::<Leitura, Falha>(self.leitura()),
            decreases self.restantes(),
        {
            if simbolo.tipo != Tokens::Multiplicacao && simbolo.tipo != Tokens::Divisao
                && simbolo.tipo != Tokens::Div && simbolo.tipo != Tokens::Mod && simbolo.tipo != Tokens::And {
                break;
            }
            self.mulop()?;
            self.factor()?;
            let ghost e6 = self.leitura();
            simbolo = self.prox_token()?;
            assert(term_laco(e6) == term_laco(self.leitura()));
        }
        Ok(())
    }

    /*
    factor ::= identifier infipo
    | number
    | string
    | identifier [( expr_list )]
    | ( expr )
    | not factor
    */
    fn factor(&mut self) -> (r: Result<(), ErroSintatico>)
        requires
            old(self).wf(),
        ensures
            confere_sint(r, final(self).leitura(), factor_g(old(self).leitura())),
            old(self).passo_valido(final(self)),
            r is Ok ==> final(self).restantes() < old(self).restantes(),
        decreases old(self).restantes(), 1nat,
    {
        let mut simbolo = self.prox_token()?;
        if self.ehString()? {
            self.string()
        } else if simbolo.tipo == Tokens::Numero {
            self.number()
        } else if simbolo.tipo == Tokens::AbreParenteses {
            self.consome(simbolo, Tokens::AbreParenteses)?;
            self.expr()?;
            self.exige(Tokens::FechaParenteses)
        } else if simbolo.tipo == Tokens::Not {
            self.consome(simbolo, Tokens::Not)?;
            self.factor()
        } else {
            self.nome_no_fator(simbolo)
        }
    }

    // The rest of a factor that starts with `true`, `false` or an
    // identifier, `t`: the token, then a list of expressions in brackets or
    // selectors.
    fn nome_no_fator(&mut self, t: Token) -> (r: Result<(), ErroSintatico>)
        requires
            old(self).wf(),
            old(self).atual_eh(t@),
            prox(old(self).leitura()) == Some((old(self).leitura(), t@)),
            t.tipo != Tokens::Apostrofo && t.tipo != Tokens::Aspas && t.tipo != Tokens::Numero
                && t.tipo != Tokens::AbreParenteses && t.tipo != Tokens::Not,
        ensures
            confere_sint(r, final(self).leitura(), factor_g(old(self).leitura())),
            old(self).passo_valido(final(self)),
            r is Ok ==> final(self).restantes() < old(self).restantes(),
        decreases old(self).restantes(), 0nat,
    {
        if t.tipo == Tokens::True {
            self.consome(t, Tokens::True)?;
        } else if t.tipo == Tokens::False {
            self.consome(t, Tokens::False)?;
        } else {
            self.consome(t, Tokens::Identificador)?;
        }
        let simbolo = self.prox_token()?;
        if simbolo.tipo == Tokens::AbreParenteses {
            self.consome(simbolo, Tokens::AbreParenteses)?;
            self.expr_list()?;
            self.exige(Tokens::FechaParenteses)
        } else {
            self.infipo()
        }
    }

    // string ::= ' { identifier } ' | " { identifier } "
    fn string(&mut self) -> (r: Result<(), ErroSintatico>)
        requires
            old(self).wf(),
        ensures
            confere_sint(r, final(self).leitura(), string_g(old(self).leitura())),
            old(self).passo_valido(final(self)),
            r is Ok ==> final(self).restantes() < old(self).restantes(),
    {
        let ghost e0 = self.leitura();
        // whether the string opened with a double quote
        let mut tipo = false;
        let mut simbolo = self.prox_token()?;
        if simbolo.tipo == Tokens::Apostrofo {
            self.consome(simbolo, Tokens::Apostrofo)?;
        } else {
            tipo = true;
            self.consome(simbolo, Tokens::Aspas)?;
        }
        let ghost e2 = self.leitura();
        simbolo = self.prox_token()?;
        assert(string_laco(e2, tipo) == string_laco(self.leitura(), tipo));
        while simbolo.tipo != Tokens::Apostrofo && simbolo.tipo != Tokens::Aspas
            invariant
                self.wf(),
                e0 == old(self).leitura(),
                old(self).passo_valido(self),
                self.restantes() < old(self).restantes(),
                self.atual_eh(simbolo@),
                prox(self.leitura()) == Some((self.leitura(), simbolo@)),
                string_g(e0) == string_laco(self.leitura(), tipo),
            decreases self.restantes(),
        {
            self.identifier()?;
            let ghost e6 = self.leitura();
            simbolo = self.prox_token()?;
            assert(string_laco(e6, tipo) == string_laco(self.leitura(), tipo));
        }
        if !tipo {
            self.consome(simbolo, Tokens::Apostrofo)
        } else {
            self.consome(simbolo, Tokens::Aspas)
        }
    }

    // Whether the number that comes is whole: the token after it is neither
    // a dot nor a scale factor.
    fn ehSequenciaDigitos(&self) -> (r: bool)
        requires
            self.linha < self.tokens.len(),
        ensures
            r == !(self.tabela()[self.linha as int].len() > 1 && (
                self.tabela()[self.linha as int][1].tipo == Tokens::Ponto
                || self.tabela()[self.linha as int][1].tipo == Tokens::FatorEscala)),
    {
        let aux = lookahead(&self.tokens, self.linha);
        proof {
            assert(self.tabela()[self.linha as int] == vista_tokens(self.tokens@[self.linha as int]@));
        }
        aux.tipo != Tokens::Ponto && aux.tipo != Tokens::FatorEscala
    }

    // number ::= NUMERO [ . NUMERO ]
    fn number(&mut self) -> (r: Result<(), ErroSintatico>)
        requires
            old(self).wf(),
        ensures
            confere_sint(r, final(self).leitura(), number_g(old(self).leitura())),
            old(self).comeca_por(final(self), r, Tokens::Numero),
            old(self).passo_valido(final(self)),
            r is Ok ==> final(self).restantes() < old(self).restantes(),
    {
        let mut simbolo = self.prox_token()?;
        self.consome(simbolo, Tokens::Numero)?;
        simbolo = self.prox_token()?;
        proof {
            assert(self.tabela()[self.linha as int] == vista_tokens(self.tokens@[self.linha as int]@));
        }
        if simbolo.tipo == Tokens::Ponto && lookahead(&self.tokens, self.linha).tipo == Tokens::Numero {
            self.consome(simbolo, Tokens::Ponto)?;
            simbolo = self.prox_token()?;
            self.consome(simbolo, Tokens::Numero)?;
            self.prox_token()?;
        }
        Ok(())
    }

    /*
    infipo ::= [ expr { , expr } ] infipo
    | . identifier infipo
    | Vazio
    */
    fn infipo(&mut self) -> (r: Result<(), ErroSintatico>)
        requires
            old(self).wf(),
        ensures
            confere_sint(r, final(self).leitura(), infipo_g(old(self).leitura())),
            old(self).passo_valido(final(self)),
        decreases old(self).restantes(), 1nat,
    {
        let ghost e0 = self.leitura();
        let mut simbolo = self.prox_token()?;
        match simbolo.tipo {
            Tokens::AbreColchete => {
                self.consome(simbolo, Tokens::AbreColchete)?;
                self.expr()?;
                let ghost e3 = self.leitura();
                simbolo = self.prox_token()?;
                assert(infipo_laco(e3) == infipo_laco(self.leitura()));
                loop
                    invariant
                        self.wf(),
                        e0 == old(self).leitura(),
                        old(self).passo_valido(self),
                        self.restantes() < old(self).restantes(),
                        self.atual_eh(simbolo@),
                        prox(self.leitura()) == Some((self.leitura(), simbolo@)),
                        infipo_g(e0) == infipo_laco(self.leitura()),
                    ensures
                        self.atual_eh(simbolo@),
                        simbolo.tipo != Tokens::Virgula,
                        infipo_g(e0) == infipo_laco(self.leitura()),
                        prox(self.leitura()) == Some((self.leitura(), simbolo@)),
                    decreases self.restantes(),
                {
                    if simbolo.tipo != Tokens::Virgula {
                        break;
                    }
                    self.consome(simbolo, Tokens::Virgula)?;
                    self.expr()?;
                    let ghost e6 = self.leitura();
                    simbolo = self.prox_token()?;
                    assert(infipo_laco(e6) == infipo_laco(self.leitura()));
                }
                self.consome(simbolo, Tokens::FechaColchete)?;
                self.infipo()
            },
            Tokens::Ponto => {
                self.consome(simbolo, Tokens::Ponto)?;
                self.identifier()?;
                self.infipo()
            },
            _ => Ok(()),
        }
    }

    // expr_list ::= expr { , expr }
    fn expr_list(&mut self) -> (r: Result<(), ErroSintatico>)
        requires
            old(self).wf(),
        ensures
            confere_sint(r, final(self).leitura(), expr_list_g(old(self).leitura())),
            old(self).passo_valido(final(self)),
            r is Ok ==> final(self).restantes() < old(self).restantes(),
        decreases old(self).restantes(), 5nat,
    {
        let ghost e0 = self.leitura();
        self.expr()?;
        let ghost e1 = self.leitura();
        let mut simbolo = self.prox_token()?;
        assert(expr_list_laco(e1) == expr_list_laco(self.leitura()));
        loop
            invariant_except_break
                expr_list_g(e0) == expr_list_laco(self.leitura()),
            invariant
                self.wf(),
                e0 == old(self).leitura(),
                old(self).passo_valido(self),
                self.restantes() < old(self).restantes(),
                self.atual_eh(simbolo@),
                prox(self.leitura()) == Some((self.leitura(), simbolo@)),
            ensures
                expr_list_g(e0) == Ok::<Leitura, Falha>(self.leitura()),
            decreases self.restantes(),
        {
            if simbolo.tipo != Tokens::Virgula {
                break;
            }
            self.consome(simbolo, Tokens::Virgula)?;
            self.expr()?;
            let ghost e6 = self.leitura();
            simbolo = self.prox_token()?;
            assert(expr_list_laco(e6) == expr_list_laco(self.leitura()));
        }
        Ok(())
    }
}

impl Analisador {
    // Accepts one of the basic types, or else an identifier.
    fn tipo_basico_ou_identificador(&mut self) -> (r: Result<(), ErroSintatico>)
        requires
            old(self).wf(),
        ensures
            confere_sint(r, final(self).leitura(), tipo_basico_ou_identificador_g(old(self).leitura())),
            old(self).passo_valido(final(self)),
    {
        let simbolo = self.prox_token()?;
        match simbolo.tipo {
            Tokens::Boolean => self.consome(simbolo, Tokens::Boolean),
            Tokens::Char => self.consome(simbolo, Tokens::Char),
            Tokens::Integer => self.consome(simbolo, Tokens::Integer),
            Tokens::Real => self.consome(simbolo, Tokens::Real),
            _ => self.identifier(),
        }
    }

    // program ::= program identifier [ ( identifier_list ) ] ; block .
    /// Parses a whole program (see `program_g`): `program`, its name, an
    /// optional list of identifiers in brackets, `;`, a block and the final
    /// `.`. The result and the state after it are those of the rules; the
    /// symbols accepted are the tokens read, in order, and the variables are
    /// numbered in the order of their declarations.
    pub fn program(&mut self) -> (r: Result<(), ErroSintatico>)
        requires
            old(self).wf(),
        ensures
            confere_sint(r, final(self).leitura(), program_g(old(self).leitura())),
            old(self).comeca_por(final(self), r, Tokens::Program),
            old(self).passo_valido(final(self)),
            r is Ok ==> final(self).restantes() < old(self).restantes(),
    {
        let mut simbolo = self.prox_token()?;
        self.consome(simbolo, Tokens::Program)?;
        self.identifier()?;
        simbolo = self.prox_token()?;
        if simbolo.tipo == Tokens::AbreParenteses {
            self.consome(simbolo, Tokens::AbreParenteses)?;
            self.identifier_list()?;
            simbolo = self.prox_token()?;
            self.consome(simbolo, Tokens::FechaParenteses)?;
            simbolo = self.prox_token()?;
        }
        self.consome(simbolo, Tokens::PontoVirgula)?;
        self.block()?;
        simbolo = self.prox_token()?;
        self.consome(simbolo, Tokens::Ponto)
    }

    /*
    block ::= { [label_declaration_part]
                [const_declaration_part]
                [type_declaration_part]
                [var_declaration_part]
                [subroutine_declaration_part] }
                compound_statement
    */
    fn block(&mut self) -> (r: Result<(), ErroSintatico>)
        requires
            old(self).wf(),
        ensures
            confere_sint(r, final(self).leitura(), block_g(old(self).leitura())),
            old(self).passo_valido(final(self)),
        decreases old(self).restantes(), 3nat,
    {
        self.declaracoes()?;
        let simbolo = self.prox_token()?;
        if simbolo.tipo == Tokens::Procedure || simbolo.tipo == Tokens::Function {
            self.subroutine_declaration_part()?;
        }
        self.compound_statement()
    }

    // The parts of declarations of a block that come (see `declaracoes_g`).
    fn declaracoes(&mut self) -> (r: Result<(), ErroSintatico>)
        requires
            old(self).wf(),
        ensures
            confere_sint(r, final(self).leitura(), declaracoes_g(old(self).leitura())),
            old(self).passo_valido(final(self)),
    {
        let mut simbolo = self.prox_token()?;
        if simbolo.tipo == Tokens::Label {
            self.label_declaration_part()?;
            simbolo = self.prox_token()?;
        }
        if simbolo.tipo == Tokens::Const {
            self.const_declaration_part()?;
            simbolo = self.prox_token()?;
        }
        if simbolo.tipo == Tokens::Type {
            self.type_declaration_part()?;
            simbolo = self.prox_token()?;
        }
        if simbolo.tipo == Tokens::Var {
            self.var_declaration_part()?;
        }
        Ok(())
    }

    // label_declaration_part ::= label number { , number } ;
    fn label_declaration_part(&mut self) -> (r: Result<(), ErroSintatico>)
        requires
            old(self).wf(),
        ensures
            confere_sint(r, final(self).leitura(), label_declaration_part_g(old(self).leitura())),
            old(self).comeca_por(final(self), r, Tokens::Label),
            old(self).passo_valido(final(self)),
    {
        self.exige(Tokens::Label)?;
        self.number_list()?;
        self.exige(Tokens::PontoVirgula)
    }

    // const_declaration_part ::= const const_definition { ; const_definition } ;
    fn const_declaration_part(&mut self) -> (r: Result<(), ErroSintatico>)
        requires
            old(self).wf(),
        ensures
            confere_sint(r, final(self).leitura(), const_declaration_part_g(old(self).leitura())),
            old(self).comeca_por(final(self), r, Tokens::Const),
            old(self).passo_valido(final(self)),
    {
        let ghost e0 = self.leitura();
        self.exige(Tokens::Const)?;
        self.const_definition()?;
        loop
            invariant_except_break
                const_declaration_part_g(e0) == const_declaration_laco(self.leitura()),
            invariant
                self.wf(),
                e0 == old(self).leitura(),
                old(self).comeca_por(self, Ok(()), Tokens::Const),
                old(self).passo_valido(self),
            ensures
                const_declaration_part_g(e0) == Ok::<Leitura, Falha>(self.leitura()),
            decreases self.restantes(),
        {
            self.exige(Tokens::PontoVirgula)?;
            let simbolo = self.prox_token()?;
            if simbolo.tipo != Tokens::Identificador {
                break;
            }
            self.const_definition()?;
        }
        Ok(())
    }

    // const_definition ::= identifier = const
    fn const_definition(&mut self) -> (r: Result<(), ErroSintatico>)
        requires
            old(self).wf(),
        ensures
            confere_sint(r, final(self).leitura(), const_definition_g(old(self).leitura())),
            old(self).comeca_por(final(self), r, Tokens::Identificador),
            old(self).passo_valido(final(self)),
    {
        self.identifier()?;
        self.exige(Tokens::Igual)?;
        self.const_()
    }

    // type_declaration_part ::= type type_definition { ; type_definition } ;
    fn type_declaration_part(&mut self) -> (r: Result<(), ErroSintatico>)
        requires
            old(self).wf(),
        ensures
            confere_sint(r, final(self).leitura(), type_declaration_part_g(old(self).leitura())),
            old(self).comeca_por(final(self), r, Tokens::Type),
            old(self).passo_valido(final(self)),
    {
        let ghost e0 = self.leitura();
        self.exige(Tokens::Type)?;
        self.type_definition()?;
        loop
            invariant_except_break
                type_declaration_part_g(e0) == type_declaration_laco(self.leitura()),
            invariant
                self.wf(),
                e0 == old(self).leitura(),
                old(self).comeca_por(self, Ok(()), Tokens::Type),
                old(self).passo_valido(self),
            ensures
                type_declaration_part_g(e0) == Ok::<Leitura, Falha>(self.leitura()),
            decreases self.restantes(),
        {
            self.exige(Tokens::PontoVirgula)?;
            let simbolo = self.prox_token()?;
            if simbolo.tipo != Tokens::Identificador {
                break;
            }
            self.type_definition()?;
        }
        Ok(())
    }

    // type_definition ::= identifier = type
    fn type_definition(&mut self) -> (r: Result<(), ErroSintatico>)
        requires
            old(self).wf(),
        ensures
            confere_sint(r, final(self).leitura(), type_definition_g(old(self).leitura())),
            old(self).comeca_por(final(self), r, Tokens::Identificador),
            old(self).passo_valido(final(self)),
    {
        self.identifier()?;
        self.exige(Tokens::Igual)?;
        self.type_()
    }

    /*
    type ::= ^ identifier
    | array [ simple_type { , simple_type } ] of type
    | set of simple_type
    | record field_list end
    | simple_type
    */
    fn type_(&mut self) -> (r: Result<(), ErroSintatico>)
        requires
            old(self).wf(),
        ensures
            confere_sint(r, final(self).leitura(), type_g(old(self).leitura())),
            old(self).passo_valido(final(self)),
        decreases old(self).restantes(), 3nat,
    {
        let simbolo = self.prox_token()?;
        match simbolo.tipo {
            Tokens::Boolean => self.consome(simbolo, Tokens::Boolean),
            Tokens::Char => self.consome(simbolo, Tokens::Char),
            Tokens::Integer => self.consome(simbolo, Tokens::Integer),
            Tokens::Real => self.consome(simbolo, Tokens::Real),
            Tokens::Identificador => self.identifier(),
            Tokens::Array => self.array(),
            Tokens::ReservadaSet => self.set_of(),
            Tokens::Record => self.record(),
            _ => self.simple_type(),
        }
    }

    // array [ simple_type { , simple_type } ] of type
    fn array(&mut self) -> (r: Result<(), ErroSintatico>)
        requires
            old(self).wf(),
        ensures
            confere_sint(r, final(self).leitura(), array_g(old(self).leitura())),
            old(self).comeca_por(final(self), r, Tokens::Array),
            old(self).passo_valido(final(self)),
        decreases old(self).restantes(), 1nat,
    {
        let ghost e0 = self.leitura();
        self.exige(Tokens::Array)?;
        self.exige(Tokens::AbreColchete)?;
        self.simple_type()?;
        let ghost e3 = self.leitura();
        let mut simbolo = self.prox_token()?;
        assert(array_laco(e3) == array_laco(self.leitura()));
        while simbolo.tipo == Tokens::Virgula
            invariant
                self.wf(),
                e0 == old(self).leitura(),
                old(self).comeca_por(self, Ok(()), Tokens::Array),
                old(self).passo_valido(self),
                self.restantes() < old(self).restantes(),
                self.atual_eh(simbolo@),
                prox(self.leitura()) == Some((self.leitura(), simbolo@)),
                array_g(e0) == array_laco(self.leitura()),
            decreases self.restantes(),
        {
            self.consome(simbolo, Tokens::Virgula)?;
            self.simple_type()?;
            let ghost e6 = self.leitura();
            simbolo = self.prox_token()?;
            assert(array_laco(e6) == array_laco(self.leitura()));
        }
        self.exige(Tokens::FechaColchete)?;
        self.exige(Tokens::Of)?;
        self.type_()
    }

    // set of simple_type
    fn set_of(&mut self) -> (r: Result<(), ErroSintatico>)
        requires
            old(self).wf(),
        ensures
            confere_sint(r, final(self).leitura(), set_of_g(old(self).leitura())),
            old(self).comeca_por(final(self), r, Tokens::ReservadaSet),
            old(self).passo_valido(final(self)),
    {
        self.exige(Tokens::ReservadaSet)?;
        self.exige(Tokens::Of)?;
        self.simple_type()
    }

    // record field_list end
    fn record(&mut self) -> (r: Result<(), ErroSintatico>)
        requires
            old(self).wf(),
        ensures
            confere_sint(r, final(self).leitura(), record_g(old(self).leitura())),
            old(self).comeca_por(final(self), r, Tokens::Record),
            old(self).passo_valido(final(self)),
        decreases old(self).restantes(), 1nat,
    {
        self.exige(Tokens::Record)?;
        self.field_list()?;
        self.exige(Tokens::End)
    }

    /*
    simple_type ::= identifier
    | ( identifier { , identifier } )
    | const .. const
    */
    fn simple_type(&mut self) -> (r: Result<(), ErroSintatico>)
        requires
            old(self).wf(),
        ensures
            confere_sint(r, final(self).leitura(), simple_type_g(old(self).leitura())),
            old(self).passo_valido(final(self)),
    {
        let ghost e0 = self.leitura();
        let mut simbolo = self.prox_token()?;
        match simbolo.tipo {
            Tokens::Identificador => self.identifier(),
            Tokens::AbreParenteses => {
                self.consome(simbolo, Tokens::AbreParenteses)?;
                self.identifier()?;
                let ghost e3 = self.leitura();
                simbolo = self.prox_token()?;
                assert(simple_type_laco(e3) == simple_type_laco(self.leitura()));
                while simbolo.tipo == Tokens::Virgula
                    invariant
                        self.wf(),
                        e0 == old(self).leitura(),
                        old(self).passo_valido(self),
                        self.atual_eh(simbolo@),
                        prox(self.leitura()) == Some((self.leitura(), simbolo@)),
                        simple_type_g(e0) == simple_type_laco(self.leitura()),
                    decreases self.restantes(),
                {
                    self.consome(simbolo, Tokens::Virgula)?;
                    self.identifier()?;
                    let ghost e6 = self.leitura();
                    simbolo = self.prox_token()?;
                    assert(simple_type_laco(e6) == simple_type_laco(self.leitura()));
                }
                self.consome(simbolo, Tokens::FechaParenteses)
            },
            _ => {
                self.const_()?;
                self.exige(Tokens::Ponto)?;
                self.exige(Tokens::Ponto)?;
                self.const_()
            },
        }
    }

    /*const ::= string
        | [+ | -] identifier
        | [+ | -] number
    */
    fn const_(&mut self) -> (r: Result<(), ErroSintatico>)
        requires
            old(self).wf(),
        ensures
            confere_sint(r, final(self).leitura(), const_g(old(self).leitura())),
            old(self).passo_valido(final(self)),
    {
        let ghost e0 = self.leitura();
        if self.ehString()? {
            self.string()
        } else {
            if self.temSinal()? {
                self.sinal()?;
            }
            let simbolo = self.prox_token()?;
            if simbolo.tipo == Tokens::Identificador {
                self.identifier()
            } else {
                self.number()
            }
        }
    }

    // number_list ::= number { , number }
    fn number_list(&mut self) -> (r: Result<(), ErroSintatico>)
        requires
            old(self).wf(),
        ensures
            confere_sint(r, final(self).leitura(), number_list_g(old(self).leitura())),
            old(self).passo_valido(final(self)),
    {
        let ghost e0 = self.leitura();
        self.number()?;
        let ghost e1 = self.leitura();
        let mut simbolo = self.prox_token()?;
        assert(number_list_laco(e1) == number_list_laco(self.leitura()));
        while simbolo.tipo == Tokens::Virgula
            invariant
                self.wf(),
                e0 == old(self).leitura(),
                old(self).passo_valido(self),
                self.atual_eh(simbolo@),
                prox(self.leitura()) == Some((self.leitura(), simbolo@)),
                number_list_g(e0) == number_list_laco(self.leitura()),
            decreases self.restantes(),
        {
            self.consome(simbolo, Tokens::Virgula)?;
            self.number()?;
            let ghost e6 = self.leitura();
            simbolo = self.prox_token()?;
            assert(number_list_laco(e6) == number_list_laco(self.leitura()));
        }
        Ok(())
    }

    // field_list ::= [ identifier_list : type] { ; [identifier_list : type] }
    fn field_list(&mut self) -> (r: Result<(), ErroSintatico>)
        requires
            old(self).wf(),
        ensures
            confere_sint(r, final(self).leitura(), field_list_g(old(self).leitura())),
            old(self).passo_valido(final(self)),
        decreases old(self).restantes(), 2nat,
    {
        let ghost e0 = self.leitura();
        let mut simbolo = self.prox_token()?;
        match simbolo.tipo {
            Tokens::Identificador => {
                loop
                    invariant_except_break
                        field_list_g(e0) == field_list_laco(self.leitura()),
                        self.atual_eh(simbolo@),
                        prox(self.leitura()) == Some((self.leitura(), simbolo@)),
                    invariant
                        self.wf(),
                        e0 == old(self).leitura(),
                        old(self).passo_valido(self),
                    ensures
                        field_list_g(e0) == Ok::<Leitura, Falha>(self.leitura()),
                    decreases self.restantes(),
                {
                    if simbolo.tipo == Tokens::End {
                        break;
                    }
                    self.identifier_list()?;
                    self.exige(Tokens::DoisPontos)?;
                    self.type_()?;
                    simbolo = self.prox_token()?;
                    if simbolo.tipo != Tokens::PontoVirgula {
                        break;
                    }
                    self.consome(simbolo, Tokens::PontoVirgula)?;
                    let ghost e6 = self.leitura();
                    simbolo = self.prox_token()?;
                    assert(field_list_laco(e6) == field_list_laco(self.leitura()));
                }
                Ok(())
            },
            _ => Ok(()),
        }
    }

    // var_declaration_part ::= var var_declaration { ; var_declaration} ;
    fn var_declaration_part(&mut self) -> (r: Result<(), ErroSintatico>)
        requires
            old(self).wf(),
        ensures
            confere_sint(r, final(self).leitura(), var_declaration_part_g(old(self).leitura())),
            old(self).comeca_por(final(self), r, Tokens::Var),
            old(self).passo_valido(final(self)),
    {
        let ghost e0 = self.leitura();
        self.exige(Tokens::Var)?;
        self.var_declaration()?;
        loop
            invariant_except_break
                var_declaration_part_g(e0) == var_declaration_laco(self.leitura()),
            invariant
                self.wf(),
                e0 == old(self).leitura(),
                old(self).comeca_por(self, Ok(()), Tokens::Var),
                old(self).passo_valido(self),
            ensures
                var_declaration_part_g(e0) == Ok::<Leitura, Falha>(self.leitura()),
            decreases self.restantes(),
        {
            self.exige(Tokens::PontoVirgula)?;
            let simbolo = self.prox_token()?;
            if simbolo.tipo != Tokens::Identificador {
                break;
            }
            self.var_declaration()?;
        }
        Ok(())
    }

    // var_declaration ::= identifier_list_var : type
    fn var_declaration(&mut self) -> (r: Result<(), ErroSintatico>)
        requires
            old(self).wf(),
        ensures
            confere_sint(r, final(self).leitura(), var_declaration_g(old(self).leitura())),
            old(self).passo_valido(final(self)),
    {
        self.identifier_list_var()?;
        self.exige(Tokens::DoisPontos)?;
        let simbolo = self.prox_token()?;
        match simbolo.tipo {
            Tokens::Integer => self.consome(simbolo, Tokens::Integer),
            Tokens::Real => self.consome(simbolo, Tokens::Real),
            Tokens::Char => self.consome(simbolo, Tokens::Char),
            Tokens::Boolean => self.consome(simbolo, Tokens::Boolean),
            _ => Err(ErroSintatico::TipoBasicoEsperado(simbolo.tok)),
        }
    }

    // Accepts an identifier and declares it as the next variable.
    fn declara_variavel(&mut self) -> (r: Result<(), ErroSintatico>)
        requires
            old(self).wf(),
        ensures
            confere_sint(r, final(self).leitura(), declara_variavel_g(old(self).leitura())),
            old(self).comeca_por(final(self), r, Tokens::Identificador),
            old(self).passo_valido(final(self)),
            r is Ok ==> final(self).restantes() < old(self).restantes(),
            r is Ok ==> match old(self).proximo() {
                Some((l, t)) => vista_variaveis(final(self).tabela_variaveis@) == vista_variaveis(
                    old(self).tabela_variaveis@,
                ).push((t.tok, old(self).pos_atual)),
                None => false,
            },
    {
        let aux = self.prox_token()?;
        self.identifier()?;
        let ghost antes = self.tabela_variaveis@;
        let var_atual = Variavel { tok: aux.tok, posicao: self.pos_atual };
        self.tabela_variaveis.push(var_atual);
        self.pos_atual = self.pos_atual + 1;
        assert(vista_variaveis(self.tabela_variaveis@) =~= vista_variaveis(antes).push((aux@.tok, var_atual.posicao)));
        Ok(())
    }

    // identifier_list_var ::= identifier { , identifier }
    fn identifier_list_var(&mut self) -> (r: Result<(), ErroSintatico>)
        requires
            old(self).wf(),
        ensures
            confere_sint(r, final(self).leitura(), identifier_list_var_g(old(self).leitura())),
            old(self).passo_valido(final(self)),
            old(self).comeca_por(final(self), r, Tokens::Identificador),
    {
        let ghost e0 = self.leitura();
        self.declara_variavel()?;
        let ghost e1 = self.leitura();
        let mut simbolo = self.prox_token()?;
        assert(identifier_list_var_laco(e1) == identifier_list_var_laco(self.leitura()));
        while simbolo.tipo == Tokens::Virgula
            invariant
                self.wf(),
                e0 == old(self).leitura(),
                old(self).comeca_por(self, Ok(()), Tokens::Identificador),
                old(self).passo_valido(self),
                self.atual_eh(simbolo@),
                prox(self.leitura()) == Some((self.leitura(), simbolo@)),
                identifier_list_var_g(e0) == identifier_list_var_laco(self.leitura()),
            decreases self.restantes(),
        {
            self.consome(simbolo, Tokens::Virgula)?;
            self.declara_variavel()?;
            let ghost e6 = self.leitura();
            simbolo = self.prox_token()?;
            assert(identifier_list_var_laco(e6) == identifier_list_var_laco(self.leitura()));
        }
        Ok(())
    }

    // identifier_list ::= identifier { , identifier }
    fn identifier_list(&mut self) -> (r: Result<(), ErroSintatico>)
        requires
            old(self).wf(),
        ensures
            confere_sint(r, final(self).leitura(), identifier_list_g(old(self).leitura())),
            old(self).passo_valido(final(self)),
            old(self).comeca_por(final(self), r, Tokens::Identificador),
            r is Ok ==> final(self).restantes() < old(self).restantes(),
    {
        let ghost e0 = self.leitura();
        self.identifier()?;
        let ghost e1 = self.leitura();
        let mut simbolo = self.prox_token()?;
        assert(identifier_list_laco(e1) == identifier_list_laco(self.leitura()));
        while simbolo.tipo == Tokens::Virgula
            invariant
                self.wf(),
                e0 == old(self).leitura(),
                old(self).comeca_por(self, Ok(()), Tokens::Identificador),
                self.restantes() < old(self).restantes(),
                old(self).passo_valido(self),
                self.atual_eh(simbolo@),
                prox(self.leitura()) == Some((self.leitura(), simbolo@)),
                identifier_list_g(e0) == identifier_list_laco(self.leitura()),
            decreases self.restantes(),
        {
            self.consome(simbolo, Tokens::Virgula)?;
            self.identifier()?;
            let ghost e6 = self.leitura();
            simbolo = self.prox_token()?;
            assert(identifier_list_laco(e6) == identifier_list_laco(self.leitura()));
        }
        Ok(())
    }
}

impl Analisador {
    // subroutine_declaration_part ::= { procedure_declaration ; | function_declaration ; }
    fn subroutine_declaration_part(&mut self) -> (r: Result<(), ErroSintatico>)
        requires
            old(self).wf(),
        ensures
            confere_sint(r, final(self).leitura(), subroutine_declaration_part_g(old(self).leitura())),
            old(self).passo_valido(final(self)),
        decreases old(self).restantes(), 2nat,
    {
        let ghost e0 = self.leitura();
        let mut simbolo = self.prox_token()?;
        loop
            invariant_except_break
                subroutine_declaration_part_g(e0) == subroutine_declaration_laco(self.leitura()),
                prox(self.leitura()) == Some((self.leitura(), simbolo@)),
            invariant
                self.wf(),
                e0 == old(self).leitura(),
                old(self).passo_valido(self),
            ensures
                subroutine_declaration_part_g(e0) == Ok::<Leitura, Falha>(self.leitura()),
            decreases self.restantes(),
        {
            match simbolo.tipo {
                Tokens::Procedure => self.procedure_declaration()?,
                _ => self.function_declaration()?,
            }
            self.exige(Tokens::PontoVirgula)?;
            simbolo = self.prox_token()?;
            if simbolo.tipo != Tokens::Procedure && simbolo.tipo != Tokens::Function {
                break;
            }
        }
        Ok(())
    }

    // procedure_declaration ::= procedure identifier [ formal_parameters ] ; block
    fn procedure_declaration(&mut self) -> (r: Result<(), ErroSintatico>)
        requires
            old(self).wf(),
        ensures
            confere_sint(r, final(self).leitura(), procedure_declaration_g(old(self).leitura())),
            old(self).comeca_por(final(self), r, Tokens::Procedure),
            old(self).passo_valido(final(self)),
        decreases old(self).restantes(), 1nat,
    {
        self.exige(Tokens::Procedure)?;
        self.identifier()?;
        self.formal_parameters()?;
        self.exige(Tokens::PontoVirgula)?;
        self.block()
    }

    // function_declaration ::= function identifier [ formal_parameters ] : identifier ; block
    fn function_declaration(&mut self) -> (r: Result<(), ErroSintatico>)
        requires
            old(self).wf(),
        ensures
            confere_sint(r, final(self).leitura(), function_declaration_g(old(self).leitura())),
            old(self).comeca_por(final(self), r, Tokens::Function),
            old(self).passo_valido(final(self)),
        decreases old(self).restantes(), 1nat,
    {
        self.exige(Tokens::Function)?;
        self.identifier()?;
        self.formal_parameters()?;
        self.exige(Tokens::DoisPontos)?;
        self.tipo_basico_ou_identificador()?;
        self.exige(Tokens::PontoVirgula)?;
        self.block()
    }

    // formal_parameters ::= (  param_section {  ;  param_section } )
    fn formal_parameters(&mut self) -> (r: Result<(), ErroSintatico>)
        requires
            old(self).wf(),
        ensures
            confere_sint(r, final(self).leitura(), formal_parameters_g(old(self).leitura())),
            old(self).passo_valido(final(self)),
    {
        let ghost e0 = self.leitura();
        let mut simbolo = self.prox_token()?;
        if simbolo.tipo != Tokens::AbreParenteses {
            return Ok(());
        }
        self.consome(simbolo, Tokens::AbreParenteses)?;
        self.param_section()?;
        let ghost e3 = self.leitura();
        simbolo = self.prox_token()?;
        assert(formal_parameters_laco(e3) == formal_parameters_laco(self.leitura()));
        loop
            invariant
                self.wf(),
                e0 == old(self).leitura(),
                old(self).passo_valido(self),
                self.atual_eh(simbolo@),
                prox(self.leitura()) == Some((self.leitura(), simbolo@)),
                formal_parameters_g(e0) == formal_parameters_laco(self.leitura()),
            ensures
                self.atual_eh(simbolo@),
                simbolo.tipo != Tokens::PontoVirgula,
                prox(self.leitura()) == Some((self.leitura(), simbolo@)),
                formal_parameters_g(e0) == formal_parameters_laco(self.leitura()),
            decreases self.restantes(),
        {
            if simbolo.tipo != Tokens::PontoVirgula {
                break;
            }
            self.consome(simbolo, Tokens::PontoVirgula)?;
            self.param_section()?;
            let ghost e6 = self.leitura();
            simbolo = self.prox_token()?;
            assert(formal_parameters_laco(e6) == formal_parameters_laco(self.leitura()));
        }
        self.consome(simbolo, Tokens::FechaParenteses)
    }

    /*
    param_section ::= [ var ] identifier_list : identifier
    | function identifier_list : identifier
    | procedure identifier_list
    */
    fn param_section(&mut self) -> (r: Result<(), ErroSintatico>)
        requires
            old(self).wf(),
        ensures
            confere_sint(r, final(self).leitura(), param_section_g(old(self).leitura())),
            old(self).passo_valido(final(self)),
    {
        let simbolo = self.prox_token()?;
        match simbolo.tipo {
            Tokens::Function => {
                self.consome(simbolo, Tokens::Function)?;
                self.identifier_list()?;
                self.exige(Tokens::DoisPontos)?;
                self.tipo_basico_ou_identificador()
            },
            Tokens::Procedure => {
                self.consome(simbolo, Tokens::Procedure)?;
                self.identifier_list()
            },
            _ => {
                if simbolo.tipo == Tokens::Var {
                    self.consome(simbolo, Tokens::Var)?;
                }
                self.identifier_list()?;
                self.exige(Tokens::DoisPontos)?;
                self.tipo_basico_ou_identificador()
            },
        }
    }

    // compound_statement ::= begin labeled_statement { ; labeled_statement  } end
    fn compound_statement(&mut self) -> (r: Result<(), ErroSintatico>)
        requires
            old(self).wf(),
        ensures
            confere_sint(r, final(self).leitura(), compound_statement_g(old(self).leitura())),
            old(self).comeca_por(final(self), r, Tokens::Begin),
            old(self).passo_valido(final(self)),
        decreases old(self).restantes(), 1nat,
    {
        let ghost e0 = self.leitura();
        self.exige(Tokens::Begin)?;
        self.labeled_statement()?;
        let ghost e3 = self.leitura();
        let mut simbolo = self.prox_token()?;
        assert(compound_statement_laco(e3) == compound_statement_laco(self.leitura()));
        loop
            invariant
                self.wf(),
                e0 == old(self).leitura(),
                old(self).comeca_por(self, Ok(()), Tokens::Begin),
                old(self).passo_valido(self),
                self.restantes() < old(self).restantes(),
                self.atual_eh(simbolo@),
                prox(self.leitura()) == Some((self.leitura(), simbolo@)),
                compound_statement_g(e0) == compound_statement_laco(self.leitura()),
            ensures
                self.atual_eh(simbolo@),
                simbolo.tipo != Tokens::PontoVirgula,
                prox(self.leitura()) == Some((self.leitura(), simbolo@)),
                compound_statement_g(e0) == compound_statement_laco(self.leitura()),
            decreases self.restantes(),
        {
            if simbolo.tipo != Tokens::PontoVirgula {
                break;
            }
            self.consome(simbolo, Tokens::PontoVirgula)?;
            self.labeled_statement()?;
            let ghost e6 = self.leitura();
            simbolo = self.prox_token()?;
            assert(compound_statement_laco(e6) == compound_statement_laco(self.leitura()));
        }
        self.consome(simbolo, Tokens::End)
    }

    // labeled_statement ::= [ number :] statement
    fn labeled_statement(&mut self) -> (r: Result<(), ErroSintatico>)
        requires
            old(self).wf(),
        ensures
            confere_sint(r, final(self).leitura(), labeled_statement_g(old(self).leitura())),
            old(self).passo_valido(final(self)),
        decreases old(self).restantes(), 4nat,
    {
        let simbolo = self.prox_token()?;
        if simbolo.tipo == Tokens::Numero {
            if self.ehSequenciaDigitos() {
                self.consome(simbolo, Tokens::Numero)?;
                self.exige(Tokens::DoisPontos)?;
            } else {
                return Err(ErroSintatico::NumeroInteiroEsperado(simbolo.tok));
            }
        }
        self.statement()
    }

    /*
    statement ::= assign_statement
    | procedure_call
    | if_statement
    | case_statement
    | while_statement
    | repeat_statement
    | for_statement
    | with_statement
    | goto_statement
    | compound_statement
    | Vazio */
    fn statement(&mut self) -> (r: Result<(), ErroSintatico>)
        requires
            old(self).wf(),
        ensures
            confere_sint(r, final(self).leitura(), statement_g(old(self).leitura())),
            old(self).passo_valido(final(self)),
        decreases old(self).restantes(), 3nat,
    {
        let simbolo = self.prox_token()?;
        match simbolo.tipo {
            Tokens::Identificador => {
                let seguinte = lookahead(&self.tokens, self.linha);
                proof {
                    assert(self.tabela()[self.linha as int] == vista_tokens(self.tokens@[self.linha as int]@));
                }
                match seguinte.tipo {
                    Tokens::AbreColchete | Tokens::Ponto | Tokens::Atribuicao => self.assign_statement(),
                    _ => self.procedure_call(),
                }
            },
            Tokens::If => self.if_statement(),
            Tokens::Case => self.case_statement(),
            Tokens::While => self.while_statement(),
            Tokens::Repeat => self.repeat_statement(),
            Tokens::For => self.for_statement(),
            Tokens::With => self.with_statement(),
            Tokens::Goto => self.goto_statement(),
            Tokens::Begin => self.compound_statement(),
            _ => self.internal_functions(),
        }
    }

    // assign_statement ::= identifier [ infipo ] := expr
    fn assign_statement(&mut self) -> (r: Result<(), ErroSintatico>)
        requires
            old(self).wf(),
        ensures
            confere_sint(r, final(self).leitura(), assign_statement_g(old(self).leitura())),
            old(self).comeca_por(final(self), r, Tokens::Identificador),
            old(self).passo_valido(final(self)),
    {
        self.identifier()?;
        let simbolo = self.prox_token()?;
        if simbolo.tipo == Tokens::AbreColchete || simbolo.tipo == Tokens::Ponto {
            self.infipo()?;
            self.exige(Tokens::Atribuicao)?;
        } else {
            self.consome(simbolo, Tokens::Atribuicao)?;
        }
        self.expr()
    }

    // procedure_call ::= identifier [ ( expr_list ) ]
    fn procedure_call(&mut self) -> (r: Result<(), ErroSintatico>)
        requires
            old(self).wf(),
        ensures
            confere_sint(r, final(self).leitura(), procedure_call_g(old(self).leitura())),
            old(self).comeca_por(final(self), r, Tokens::Identificador),
            old(self).passo_valido(final(self)),
    {
        self.identifier()?;
        let simbolo = self.prox_token()?;
        if simbolo.tipo == Tokens::AbreParenteses {
            self.consome(simbolo, Tokens::AbreParenteses)?;
            self.expr_list()?;
            self.exige(Tokens::FechaParenteses)?;
        }
        Ok(())
    }

    // if_statement ::= if expr then statement [ else statement ]
    fn if_statement(&mut self) -> (r: Result<(), ErroSintatico>)
        requires
            old(self).wf(),
        ensures
            confere_sint(r, final(self).leitura(), if_statement_g(old(self).leitura())),
            old(self).comeca_por(final(self), r, Tokens::If),
            old(self).passo_valido(final(self)),
        decreases old(self).restantes(), 1nat,
    {
        self.exige(Tokens::If)?;
        self.expr()?;
        self.exige(Tokens::Then)?;
        self.statement()?;
        let simbolo = self.prox_token()?;
        if simbolo.tipo == Tokens::Else {
            self.consome(simbolo, Tokens::Else)?;
            self.statement()?;
        }
        Ok(())
    }

    // while_statement ::= while expr do statement
    fn while_statement(&mut self) -> (r: Result<(), ErroSintatico>)
        requires
            old(self).wf(),
        ensures
            confere_sint(r, final(self).leitura(), while_statement_g(old(self).leitura())),
            old(self).comeca_por(final(self), r, Tokens::While),
            old(self).passo_valido(final(self)),
        decreases old(self).restantes(), 1nat,
    {
        self.exige(Tokens::While)?;
        self.expr()?;
        self.exige(Tokens::Do)?;
        self.statement()
    }

    // repeat_statement ::= repeat statement { ; statement } until expr
    fn repeat_statement(&mut self) -> (r: Result<(), ErroSintatico>)
        requires
            old(self).wf(),
        ensures
            confere_sint(r, final(self).leitura(), repeat_statement_g(old(self).leitura())),
            old(self).comeca_por(final(self), r, Tokens::Repeat),
            old(self).passo_valido(final(self)),
        decreases old(self).restantes(), 1nat,
    {
        let ghost e0 = self.leitura();
        self.exige(Tokens::Repeat)?;
        self.statement()?;
        let ghost e2 = self.leitura();
        let mut simbolo = self.prox_token()?;
        assert(repeat_statement_laco(e2) == repeat_statement_laco(self.leitura()));
        loop
            invariant
                self.wf(),
                e0 == old(self).leitura(),
                old(self).comeca_por(self, Ok(()), Tokens::Repeat),
                old(self).passo_valido(self),
                self.restantes() < old(self).restantes(),
                self.atual_eh(simbolo@),
                prox(self.leitura()) == Some((self.leitura(), simbolo@)),
                repeat_statement_g(e0) == repeat_statement_laco(self.leitura()),
            ensures
                self.atual_eh(simbolo@),
                simbolo.tipo != Tokens::PontoVirgula,
                prox(self.leitura()) == Some((self.leitura(), simbolo@)),
                repeat_statement_g(e0) == repeat_statement_laco(self.leitura()),
            decreases self.restantes(),
        {
            if simbolo.tipo != Tokens::PontoVirgula {
                break;
            }
            self.consome(simbolo, Tokens::PontoVirgula)?;
            self.statement()?;
            let ghost e6 = self.leitura();
            simbolo = self.prox_token()?;
            assert(repeat_statement_laco(e6) == repeat_statement_laco(self.leitura()));
        }
        self.consome(simbolo, Tokens::Until)?;
        self.expr()
    }

    // for_statement ::= for identifier infipo := expr (to | downto) expr do statement
    fn for_statement(&mut self) -> (r: Result<(), ErroSintatico>)
        requires
            old(self).wf(),
        ensures
            confere_sint(r, final(self).leitura(), for_statement_g(old(self).leitura())),
            old(self).comeca_por(final(self), r, Tokens::For),
            old(self).passo_valido(final(self)),
        decreases old(self).restantes(), 1nat,
    {
        self.exige(Tokens::For)?;
        self.identifier()?;
        self.infipo()?;
        self.exige(Tokens::Atribuicao)?;
        self.expr()?;
        let simbolo = self.prox_token()?;
        match simbolo.tipo {
            Tokens::To => self.consome(simbolo, Tokens::To)?,
            Tokens::Downto => self.consome(simbolo, Tokens::Downto)?,
            _ => {
                return Err(ErroSintatico::DirecaoEsperada(simbolo.tok));
            },
        }
        self.expr()?;
        self.exige(Tokens::Do)?;
        self.statement()
    }

    // with_statement ::= with identifier infipo { , identifier infipo } do statement
    fn with_statement(&mut self) -> (r: Result<(), ErroSintatico>)
        requires
            old(self).wf(),
        ensures
            confere_sint(r, final(self).leitura(), with_statement_g(old(self).leitura())),
            old(self).comeca_por(final(self), r, Tokens::With),
            old(self).passo_valido(final(self)),
        decreases old(self).restantes(), 1nat,
    {
        let ghost e0 = self.leitura();
        self.exige(Tokens::With)?;
        self.identifier()?;
        self.infipo()?;
        let ghost e3 = self.leitura();
        let mut simbolo = self.prox_token()?;
        assert(with_statement_laco(e3) == with_statement_laco(self.leitura()));
        loop
            invariant
                self.wf(),
                e0 == old(self).leitura(),
                old(self).comeca_por(self, Ok(()), Tokens::With),
                old(self).passo_valido(self),
                self.restantes() < old(self).restantes(),
                self.atual_eh(simbolo@),
                prox(self.leitura()) == Some((self.leitura(), simbolo@)),
                with_statement_g(e0) == with_statement_laco(self.leitura()),
            ensures
                self.atual_eh(simbolo@),
                simbolo.tipo != Tokens::Virgula,
                prox(self.leitura()) == Some((self.leitura(), simbolo@)),
                with_statement_g(e0) == with_statement_laco(self.leitura()),
            decreases self.restantes(),
        {
            if simbolo.tipo != Tokens::Virgula {
                break;
            }
            self.consome(simbolo, Tokens::Virgula)?;
            self.identifier()?;
            self.infipo()?;
            let ghost e6 = self.leitura();
            simbolo = self.prox_token()?;
            assert(with_statement_laco(e6) == with_statement_laco(self.leitura()));
        }
        self.consome(simbolo, Tokens::Do)?;
        self.statement()
    }

    // case_statement ::= case expr of case { ; case } end
    fn case_statement(&mut self) -> (r: Result<(), ErroSintatico>)
        requires
            old(self).wf(),
        ensures
            confere_sint(r, final(self).leitura(), case_statement_g(old(self).leitura())),
            old(self).comeca_por(final(self), r, Tokens::Case),
            old(self).passo_valido(final(self)),
        decreases old(self).restantes(), 1nat,
    {
        let ghost e0 = self.leitura();
        self.exige(Tokens::Case)?;
        self.expr()?;
        self.exige(Tokens::Of)?;
        self.case()?;
        let ghost e3 = self.leitura();
        let mut simbolo = self.prox_token()?;
        assert(case_statement_laco(e3) == case_statement_laco(self.leitura()));
        loop
            invariant
                self.wf(),
                e0 == old(self).leitura(),
                old(self).comeca_por(self, Ok(()), Tokens::Case),
                old(self).passo_valido(self),
                self.restantes() < old(self).restantes(),
                self.atual_eh(simbolo@),
                prox(self.leitura()) == Some((self.leitura(), simbolo@)),
                case_statement_g(e0) == case_statement_laco(self.leitura()),
            ensures
                self.atual_eh(simbolo@),
                simbolo.tipo != Tokens::PontoVirgula,
                prox(self.leitura()) == Some((self.leitura(), simbolo@)),
                case_statement_g(e0) == case_statement_laco(self.leitura()),
            decreases self.restantes(),
        {
            if simbolo.tipo != Tokens::PontoVirgula {
                break;
            }
            self.consome(simbolo, Tokens::PontoVirgula)?;
            self.case()?;
            let ghost e6 = self.leitura();
            simbolo = self.prox_token()?;
            assert(case_statement_laco(e6) == case_statement_laco(self.leitura()));
        }
        self.consome(simbolo, Tokens::End)
    }

    // case ::= const {, const } : statement
    fn case(&mut self) -> (r: Result<(), ErroSintatico>)
        requires
            old(self).wf(),
        ensures
            confere_sint(r, final(self).leitura(), case_g(old(self).leitura())),
            old(self).passo_valido(final(self)),
        decreases old(self).restantes(), 1nat,
    {
        let ghost e0 = self.leitura();
        self.const_()?;
        let ghost e1 = self.leitura();
        let mut simbolo = self.prox_token()?;
        assert(case_constantes(e1) == case_constantes(self.leitura()));
        loop
            invariant
                self.wf(),
                e0 == old(self).leitura(),
                old(self).passo_valido(self),
                self.atual_eh(simbolo@),
                prox(self.leitura()) == Some((self.leitura(), simbolo@)),
                case_constantes(e1) == case_constantes(self.leitura()),
                e1 == (match const_g(e0) { Ok(x) => x, Err(_) => e1 }),
                const_g(e0) is Ok,
            ensures
                self.atual_eh(simbolo@),
                simbolo.tipo != Tokens::Virgula,
                prox(self.leitura()) == Some((self.leitura(), simbolo@)),
                case_constantes(e1) == Ok::<Leitura, Falha>(self.leitura()),
            decreases self.restantes(),
        {
            if simbolo.tipo != Tokens::Virgula {
                break;
            }
            self.consome(simbolo, Tokens::Virgula)?;
            self.const_()?;
            let ghost e6 = self.leitura();
            simbolo = self.prox_token()?;
            assert(case_constantes(e6) == case_constantes(self.leitura()));
        }
        self.consome(simbolo, Tokens::DoisPontos)?;
        self.statement()
    }

    // goto_statement ::= goto number
    fn goto_statement(&mut self) -> (r: Result<(), ErroSintatico>)
        requires
            old(self).wf(),
        ensures
            confere_sint(r, final(self).leitura(), goto_statement_g(old(self).leitura())),
            old(self).comeca_por(final(self), r, Tokens::Goto),
            old(self).passo_valido(final(self)),
    {
        self.exige(Tokens::Goto)?;
        self.number()
    }

    /* internal_functions ::= read ( identifier_list )
    | write ( identifier_list )
    */
    fn internal_functions(&mut self) -> (r: Result<(), ErroSintatico>)
        requires
            old(self).wf(),
        ensures
            confere_sint(r, final(self).leitura(), internal_functions_g(old(self).leitura())),
            old(self).passo_valido(final(self)),
    {
        let simbolo = self.prox_token()?;
        match simbolo.tipo {
            Tokens::Read => {
                self.consome(simbolo, Tokens::Read)?;
                self.exige(Tokens::AbreParenteses)?;
                self.identifier_list()?;
                self.exige(Tokens::FechaParenteses)
            },
            Tokens::Write => {
                self.consome(simbolo, Tokens::Write)?;
                self.exige(Tokens::AbreParenteses)?;
                self.identifier_list()?;
                self.exige(Tokens::FechaParenteses)
            },
            _ => Ok(()),
        }
    }
}


/// The parser accepts the tokens in the order they come: started with no
/// symbol, after any run of its steps the table of symbols holds exactly the
/// first tokens of the table, by text and kind, and every token is either
/// accepted or still to read.
pub proof fn lei_simbolos_em_ordem(inicio: &Analisador, fim: &Analisador)
    requires
        inicio.tabela_simb@.len() == 0,
        inicio.passo_valido(fim),
    ensures
        vista_simbolos(fim.tabela_simb@) == achatar(inicio.tabela()).map_values(|t: TokenVista| par(t)).take(
            fim.tabela_simb@.len() as int,
        ),
        fim.tabela_simb@.len() + fim.restantes() == inicio.restantes(),
{
    let f = |t: TokenVista| par(t);
    let s = vista_simbolos(fim.tabela_simb@);
    let r = achatar(fim.tabela()).map_values(f);
    assert(vista_simbolos(inicio.tabela_simb@) =~= Seq::<(Seq<char>, Tokens)>::empty());
    assert(inicio.fluxo() =~= achatar(inicio.tabela()).map_values(f));
    assert(fim.fluxo() == s + r);
    assert((s + r).take(s.len() as int) =~= s);
}

/// The variables are numbered in the order of their declarations, from
/// zero, and the next position is their count.
pub proof fn lei_variaveis_numeradas(a: &Analisador)
    requires
        a.wf(),
    ensures
        forall|i: int| 0 <= i < a.tabela_variaveis.len() ==> #[trigger] vista_variaveis(a.tabela_variaveis@)[i].1 == i,
        a.pos_atual == a.tabela_variaveis.len(),
{
    assert forall|i: int| 0 <= i < a.tabela_variaveis.len() implies #[trigger] vista_variaveis(a.tabela_variaveis@)[i].1
        == i by {
        assert(a.tabela_variaveis@[i].posicao == i);
    }
}

} // verus!
