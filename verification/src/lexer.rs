//! The lexer: it splits the source text into lines of lexemes, gives each
//! lexeme its kind, joins the symbols written with two characters, and keeps
//! the table of tokens from which the parser reads.
use vstd::prelude::*;
use crate::texto::{alfanumerico, eh_alfanumerico, eh_inteiro_i64, empurra_char, inteiro_i64, mesmo_texto, minusculas, minusculas_ascii, para_minusculas, texto_ascii};
use crate::tokens::{Token, Tokens, nome_spec};

verus! {

/// What a token holds, as plain values.
pub struct TokenVista {
    pub tok: Seq<char>,
    pub tipo: Tokens,
    pub lin: i32,
    pub col: i32,
}

impl View for Token {
    type V = TokenVista;

    open spec fn view(&self) -> TokenVista {
        TokenVista { tok: self.tok@, tipo: self.tipo, lin: self.lin, col: self.col }
    }
}

/// The tokens of a sequence, as plain values.
pub open spec fn vista_tokens(s: Seq<Token>) -> Seq<TokenVista> {
    s.map_values(|t: Token| t@)
}

/// The reserved word that a lowercase text spells, if it spells one.
pub open spec fn reservada_spec(s: Seq<char>) -> Option<Tokens> {
    if s == "and"@ {
        Some(Tokens::And)
    } else if s == "array"@ {
        Some(Tokens::Array)
    } else if s == "asm"@ {
        Some(Tokens::Asm)
    } else if s == "begin"@ {
        Some(Tokens::Begin)
    } else if s == "boolean"@ {
        Some(Tokens::Boolean)
    } else if s == "case"@ {
        Some(Tokens::Case)
    } else if s == "char"@ {
        Some(Tokens::Char)
    } else if s == "const"@ {
        Some(Tokens::Const)
    } else if s == "div"@ {
        Some(Tokens::Div)
    } else if s == "do"@ {
        Some(Tokens::Do)
    } else if s == "downto"@ {
        Some(Tokens::Downto)
    } else if s == "else"@ {
        Some(Tokens::Else)
    } else if s == "end"@ {
        Some(Tokens::End)
    } else if s == "false"@ {
        Some(Tokens::False)
    } else if s == "file"@ {
        Some(Tokens::File)
    } else if s == "for"@ {
        Some(Tokens::For)
    } else if s == "forward"@ {
        Some(Tokens::Forward)
    } else if s == "function"@ {
        Some(Tokens::Function)
    } else if s == "goto"@ {
        Some(Tokens::Goto)
    } else if s == "if"@ {
        Some(Tokens::If)
    } else if s == "in"@ {
        Some(Tokens::In)
    } else if s == "inline"@ {
        Some(Tokens::Inline)
    } else if s == "integer"@ {
        Some(Tokens::Integer)
    } else if s == "label"@ {
        Some(Tokens::Label)
    } else if s == "mod"@ {
        Some(Tokens::Mod)
    } else if s == "nil"@ {
        Some(Tokens::Nil)
    } else if s == "not"@ {
        Some(Tokens::Not)
    } else if s == "object"@ {
        Some(Tokens::Object)
    } else if s == "of"@ {
        Some(Tokens::Of)
    } else if s == "or"@ {
        Some(Tokens::Or)
    } else if s == "packed"@ {
        Some(Tokens::Packed)
    } else if s == "procedure"@ {
        Some(Tokens::Procedure)
    } else if s == "program"@ {
        Some(Tokens::Program)
    } else if s == "read"@ {
        Some(Tokens::Read)
    } else if s == "real"@ {
        Some(Tokens::Real)
    } else if s == "record"@ {
        Some(Tokens::Record)
    } else if s == "repeat"@ {
        Some(Tokens::Repeat)
    } else if s == "set"@ {
        Some(Tokens::ReservadaSet)
    } else if s == "string"@ {
        Some(Tokens::ReservadaString)
    } else if s == "then"@ {
        Some(Tokens::Then)
    } else if s == "to"@ {
        Some(Tokens::To)
    } else if s == "true"@ {
        Some(Tokens::True)
    } else if s == "type"@ {
        Some(Tokens::Type)
    } else if s == "until"@ {
        Some(Tokens::Until)
    } else if s == "var"@ {
        Some(Tokens::Var)
    } else if s == "while"@ {
        Some(Tokens::While)
    } else if s == "with"@ {
        Some(Tokens::With)
    } else if s == "write"@ {
        Some(Tokens::Write)
    } else {
        None
    }
}

/// Looks a lowercase text up among the reserved words.
pub fn reservada(s: &str) -> (r: Option<Tokens>)
    ensures
        r == reservada_spec(s@),
{
    if mesmo_texto(s, "and") {
        Some(Tokens::And)
    } else if mesmo_texto(s, "array") {
        Some(Tokens::Array)
    } else if mesmo_texto(s, "asm") {
        Some(Tokens::Asm)
    } else if mesmo_texto(s, "begin") {
        Some(Tokens::Begin)
    } else if mesmo_texto(s, "boolean") {
        Some(Tokens::Boolean)
    } else if mesmo_texto(s, "case") {
        Some(Tokens::Case)
    } else if mesmo_texto(s, "char") {
        Some(Tokens::Char)
    } else if mesmo_texto(s, "const") {
        Some(Tokens::Const)
    } else if mesmo_texto(s, "div") {
        Some(Tokens::Div)
    } else if mesmo_texto(s, "do") {
        Some(Tokens::Do)
    } else if mesmo_texto(s, "downto") {
        Some(Tokens::Downto)
    } else if mesmo_texto(s, "else") {
        Some(Tokens::Else)
    } else if mesmo_texto(s, "end") {
        Some(Tokens::End)
    } else if mesmo_texto(s, "false") {
        Some(Tokens::False)
    } else if mesmo_texto(s, "file") {
        Some(Tokens::File)
    } else if mesmo_texto(s, "for") {
        Some(Tokens::For)
    } else if mesmo_texto(s, "forward") {
        Some(Tokens::Forward)
    } else if mesmo_texto(s, "function") {
        Some(Tokens::Function)
    } else if mesmo_texto(s, "goto") {
        Some(Tokens::Goto)
    } else if mesmo_texto(s, "if") {
        Some(Tokens::If)
    } else if mesmo_texto(s, "in") {
        Some(Tokens::In)
    } else if mesmo_texto(s, "inline") {
        Some(Tokens::Inline)
    } else if mesmo_texto(s, "integer") {
        Some(Tokens::Integer)
    } else if mesmo_texto(s, "label") {
        Some(Tokens::Label)
    } else if mesmo_texto(s, "mod") {
        Some(Tokens::Mod)
    } else if mesmo_texto(s, "nil") {
        Some(Tokens::Nil)
    } else if mesmo_texto(s, "not") {
        Some(Tokens::Not)
    } else if mesmo_texto(s, "object") {
        Some(Tokens::Object)
    } else if mesmo_texto(s, "of") {
        Some(Tokens::Of)
    } else if mesmo_texto(s, "or") {
        Some(Tokens::Or)
    } else if mesmo_texto(s, "packed") {
        Some(Tokens::Packed)
    } else if mesmo_texto(s, "procedure") {
        Some(Tokens::Procedure)
    } else if mesmo_texto(s, "program") {
        Some(Tokens::Program)
    } else if mesmo_texto(s, "read") {
        Some(Tokens::Read)
    } else if mesmo_texto(s, "real") {
        Some(Tokens::Real)
    } else if mesmo_texto(s, "record") {
        Some(Tokens::Record)
    } else if mesmo_texto(s, "repeat") {
        Some(Tokens::Repeat)
    } else if mesmo_texto(s, "set") {
        Some(Tokens::ReservadaSet)
    } else if mesmo_texto(s, "string") {
        Some(Tokens::ReservadaString)
    } else if mesmo_texto(s, "then") {
        Some(Tokens::Then)
    } else if mesmo_texto(s, "to") {
        Some(Tokens::To)
    } else if mesmo_texto(s, "true") {
        Some(Tokens::True)
    } else if mesmo_texto(s, "type") {
        Some(Tokens::Type)
    } else if mesmo_texto(s, "until") {
        Some(Tokens::Until)
    } else if mesmo_texto(s, "var") {
        Some(Tokens::Var)
    } else if mesmo_texto(s, "while") {
        Some(Tokens::While)
    } else if mesmo_texto(s, "with") {
        Some(Tokens::With)
    } else if mesmo_texto(s, "write") {
        Some(Tokens::Write)
    } else {
        None
    }
}

/// Whether a text is one of the punctuation symbols.
pub open spec fn na_pontuacao(s: Seq<char>) -> bool {
    s == "("@ || s == ")"@ || s == "["@ || s == "]"@ || s == "."@ || s == ","@ || s == ";"@
        || s == ":"@ || s == "'"@ || s == "\""@
}

/// The kind of a punctuation text (`..` counts as a colon).
pub open spec fn pontuacao_spec(s: Seq<char>) -> Option<Tokens> {
    if s == "("@ {
        Some(Tokens::AbreParenteses)
    } else if s == ")"@ {
        Some(Tokens::FechaParenteses)
    } else if s == "["@ {
        Some(Tokens::AbreColchete)
    } else if s == "]"@ {
        Some(Tokens::FechaColchete)
    } else if s == "."@ {
        Some(Tokens::Ponto)
    } else if s == ","@ {
        Some(Tokens::Virgula)
    } else if s == ";"@ {
        Some(Tokens::PontoVirgula)
    } else if s == ":"@ {
        Some(Tokens::DoisPontos)
    } else if s == ".."@ {
        Some(Tokens::DoisPontos)
    } else if s == "'"@ {
        Some(Tokens::Apostrofo)
    } else if s == "\""@ {
        Some(Tokens::Aspas)
    } else {
        None
    }
}

/// Whether a text is one of the relational symbols of one character.
pub open spec fn na_relacao(s: Seq<char>) -> bool {
    s == "="@ || s == "<"@ || s == ">"@
}

/// The kind of a relational text.
pub open spec fn relacao_spec(s: Seq<char>) -> Option<Tokens> {
    if s == "="@ {
        Some(Tokens::Igual)
    } else if s == "<"@ {
        Some(Tokens::Menor)
    } else if s == ">"@ {
        Some(Tokens::Maior)
    } else {
        None
    }
}

/// Whether a text is one of the arithmetic symbols.
pub open spec fn na_aritmetica(s: Seq<char>) -> bool {
    s == "+"@ || s == "-"@ || s == "*"@ || s == "/"@ || s == "%"@ || s == "$"@ || s == "&"@
}

/// The kind of an arithmetic text.
pub open spec fn aritmetica_spec(s: Seq<char>) -> Option<Tokens> {
    if s == "+"@ {
        Some(Tokens::Mais)
    } else if s == "-"@ {
        Some(Tokens::Menos)
    } else if s == "*"@ {
        Some(Tokens::Multiplicacao)
    } else if s == "/"@ {
        Some(Tokens::Divisao)
    } else if s == "%"@ {
        Some(Tokens::Modulo)
    } else if s == "$"@ {
        Some(Tokens::Dolar)
    } else if s == "&"@ {
        Some(Tokens::EComercial)
    } else {
        None
    }
}

/// The kind that the lexer gives a lexeme, or `None` where it gives the
/// empty token. The lists of reserved words and symbols are searched with
/// the lexeme in lowercase; a symbol's kind is then read from the lexeme as
/// written; a lexeme that reads as an `i64` is a number; `e` or `E` alone is
/// a scale factor; anything else is an identifier.
pub open spec fn tipo_lexema_spec(w: Seq<char>) -> Option<Tokens> {
    tipo_lexema_de(w, minusculas(w))
}

/// The kind of lexeme `w`, given `low`, the lexeme in lowercase (see
/// `tipo_lexema_spec`).
pub open spec fn tipo_lexema_de(w: Seq<char>, low: Seq<char>) -> Option<Tokens> {
    if reservada_spec(low) is Some {
        reservada_spec(low)
    } else if na_pontuacao(low) {
        pontuacao_spec(w)
    } else if na_relacao(low) {
        relacao_spec(w)
    } else if na_aritmetica(low) {
        aritmetica_spec(w)
    } else if inteiro_i64(w) {
        Some(Tokens::Numero)
    } else if low == "e"@ {
        Some(Tokens::FatorEscala)
    } else {
        Some(Tokens::Identificador)
    }
}

/// The token that the lexer makes of lexeme `w` on line `linha`: the lexeme
/// with its kind, the line and column zero; or the empty token.
pub open spec fn token_de(w: Seq<char>, linha: i32) -> TokenVista {
    match tipo_lexema_spec(w) {
        Some(k) => TokenVista { tok: w, tipo: k, lin: linha, col: 0 },
        None => TokenVista { tok: Seq::empty(), tipo: Tokens::Comentario, lin: 0, col: 0 },
    }
}

/// The tokens that the lexer makes of a line of lexemes.
pub open spec fn tokens_da_linha(l: Seq<Seq<char>>, linha: i32) -> Seq<TokenVista> {
    l.map_values(|w: Seq<char>| token_de(w, linha))
}

fn pontuacao(s: &str) -> (r: Option<Tokens>)
    ensures
        r == pontuacao_spec(s@),
{
    if mesmo_texto(s, "(") {
        Some(Tokens::AbreParenteses)
    } else if mesmo_texto(s, ")") {
        Some(Tokens::FechaParenteses)
    } else if mesmo_texto(s, "[") {
        Some(Tokens::AbreColchete)
    } else if mesmo_texto(s, "]") {
        Some(Tokens::FechaColchete)
    } else if mesmo_texto(s, ".") {
        Some(Tokens::Ponto)
    } else if mesmo_texto(s, ",") {
        Some(Tokens::Virgula)
    } else if mesmo_texto(s, ";") {
        Some(Tokens::PontoVirgula)
    } else if mesmo_texto(s, ":") {
        Some(Tokens::DoisPontos)
    } else if mesmo_texto(s, "..") {
        Some(Tokens::DoisPontos)
    } else if mesmo_texto(s, "'") {
        Some(Tokens::Apostrofo)
    } else if mesmo_texto(s, "\"") {
        Some(Tokens::Aspas)
    } else {
        None
    }
}

fn eh_pontuacao(s: &str) -> (r: bool)
    ensures
        r == na_pontuacao(s@),
{
    mesmo_texto(s, "(") || mesmo_texto(s, ")") || mesmo_texto(s, "[") || mesmo_texto(s, "]")
        || mesmo_texto(s, ".") || mesmo_texto(s, ",") || mesmo_texto(s, ";") || mesmo_texto(s, ":")
        || mesmo_texto(s, "'") || mesmo_texto(s, "\"")
}

fn relacao(s: &str) -> (r: Option<Tokens>)
    ensures
        r == relacao_spec(s@),
{
    if mesmo_texto(s, "=") {
        Some(Tokens::Igual)
    } else if mesmo_texto(s, "<") {
        Some(Tokens::Menor)
    } else if mesmo_texto(s, ">") {
        Some(Tokens::Maior)
    } else {
        None
    }
}

fn aritmetica(s: &str) -> (r: Option<Tokens>)
    ensures
        r == aritmetica_spec(s@),
{
    if mesmo_texto(s, "+") {
        Some(Tokens::Mais)
    } else if mesmo_texto(s, "-") {
        Some(Tokens::Menos)
    } else if mesmo_texto(s, "*") {
        Some(Tokens::Multiplicacao)
    } else if mesmo_texto(s, "/") {
        Some(Tokens::Divisao)
    } else if mesmo_texto(s, "%") {
        Some(Tokens::Modulo)
    } else if mesmo_texto(s, "$") {
        Some(Tokens::Dolar)
    } else if mesmo_texto(s, "&") {
        Some(Tokens::EComercial)
    } else {
        None
    }
}

/// The kind of a lexeme (see `tipo_lexema_spec`).
pub fn tipo_lexema(w: &str) -> (r: Option<Tokens>)
    ensures
        r == tipo_lexema_spec(w@),
        texto_ascii(w@) ==> r == tipo_lexema_de(w@, minusculas_ascii(w@)),
{
    let low = para_minusculas(w);
    tipo_lexema_minusculas(w, low.as_str())
}

/// The kind of lexeme `w`, given `ls`, the lexeme in lowercase (see
/// `tipo_lexema_de`).
pub fn tipo_lexema_minusculas(w: &str, ls: &str) -> (r: Option<Tokens>)
    ensures
        r == tipo_lexema_de(w@, ls@),
{
    let res = reservada(ls);
    if res.is_some() {
        return res;
    }
    if eh_pontuacao(ls) {
        return pontuacao(w);
    }
    if relacao(ls).is_some() {
        return relacao(w);
    }
    if aritmetica(ls).is_some() {
        return aritmetica(w);
    }
    if eh_inteiro_i64(w) {
        return Some(Tokens::Numero);
    }
    if mesmo_texto(ls, "e") {
        return Some(Tokens::FatorEscala);
    }
    Some(Tokens::Identificador)
}

/// The token of lexeme `w` on line `linha`.
pub fn classifica(w: &String, linha: i32) -> (t: Token)
    ensures
        t@ == token_de(w@, linha),
{
    match tipo_lexema(w.as_str()) {
        Some(k) => Token { tok: w.clone(), tipo: k, lin: linha, col: 0 },
        None => Token::new(),
    }
}

/// The tokens of one line of lexemes, in order, each made by `classifica`
/// with the line's number.
pub fn analisaLexico(tabela: &Vec<String>, linha: i32) -> (r: Vec<Token>)
    ensures
        vista_tokens(r@) == tokens_da_linha(vista_linha(tabela@), linha),
{
    let mut aux: Vec<Token> = Vec::new();
    let mut i: usize = 0;
    while i < tabela.len()
        invariant
            i <= tabela.len(),
            aux.len() == i,
            forall|k: int| 0 <= k < i ==> #[trigger] aux[k]@ == token_de(tabela[k]@, linha),
        decreases tabela.len() - i,
    {
        aux.push(classifica(&tabela[i], linha));
        i = i + 1;
    }
    assert(vista_tokens(aux@) =~= tokens_da_linha(vista_linha(tabela@), linha));
    aux
}

/// A character that ends a lexeme: one that is neither alphanumeric nor `_`.
pub open spec fn eh_separador(c: char) -> bool {
    !(alfanumerico(c) || c == '_')
}

/// A character that ends a line.
pub open spec fn eh_quebra(c: char) -> bool {
    c == '\r' || c == '\n'
}

/// A blank that separates lexemes and is itself dropped.
pub open spec fn eh_espaco(c: char) -> bool {
    c == '\t' || c == ' '
}

/// Where the splitting of a text stands: the lines ended so far, the lexemes
/// of the current line, and the word being read.
pub struct Varredura {
    pub concluidas: Seq<Seq<Seq<char>>>,
    pub atual: Seq<Seq<char>>,
    pub palavra: Seq<char>,
}

/// The current line with the word being read added to it, if there is one.
pub open spec fn fecha_palavra(atual: Seq<Seq<char>>, palavra: Seq<char>) -> Seq<Seq<char>> {
    if palavra.len() > 0 {
        atual.push(palavra)
    } else {
        atual
    }
}

/// Reading one more character: a word character extends the word; a
/// separator ends the word, and then a line break ends the line, a blank is
/// dropped, and any other separator is a lexeme of its own.
pub open spec fn passo(st: Varredura, c: char) -> Varredura {
    if !eh_separador(c) {
        Varredura { concluidas: st.concluidas, atual: st.atual, palavra: st.palavra.push(c) }
    } else {
        let a = fecha_palavra(st.atual, st.palavra);
        if eh_quebra(c) {
            Varredura { concluidas: st.concluidas.push(a), atual: Seq::empty(), palavra: Seq::empty() }
        } else if !eh_espaco(c) {
            Varredura { concluidas: st.concluidas, atual: a.push(seq![c]), palavra: Seq::empty() }
        } else {
            Varredura { concluidas: st.concluidas, atual: a, palavra: Seq::empty() }
        }
    }
}

/// The state after reading the whole text from the start.
pub open spec fn varre(s: Seq<char>) -> Varredura
    decreases s.len(),
{
    if s.len() == 0 {
        Varredura { concluidas: Seq::empty(), atual: Seq::empty(), palavra: Seq::empty() }
    } else {
        passo(varre(s.drop_last()), s.last())
    }
}

/// The lines that hold at least one lexeme, in order.
pub open spec fn nao_vazias(ls: Seq<Seq<Seq<char>>>) -> Seq<Seq<Seq<char>>>
    decreases ls.len(),
{
    if ls.len() == 0 {
        Seq::empty()
    } else if ls.last().len() > 0 {
        nao_vazias(ls.drop_last()).push(ls.last())
    } else {
        nao_vazias(ls.drop_last())
    }
}

/// The lines of lexemes of a text: every line ended, then the last one, with
/// the empty lines left out.
pub open spec fn linhas_de(s: Seq<char>) -> Seq<Seq<Seq<char>>> {
    let v = varre(s);
    nao_vazias(v.concluidas.push(fecha_palavra(v.atual, v.palavra)))
}

/// The texts of a line of lexemes.
pub open spec fn vista_linha(l: Seq<String>) -> Seq<Seq<char>> {
    l.map_values(|w: String| w@)
}

/// The texts of lines of lexemes.
pub open spec fn vista_linhas(ls: Seq<Vec<String>>) -> Seq<Seq<Seq<char>>> {
    ls.map_values(|l: Vec<String>| vista_linha(l@))
}

/// Splits the source text into lines of lexemes (see `linhas_de`).
pub fn tabelaSimbolos(texto: &Vec<char>) -> (r: Vec<Vec<String>>)
    ensures
        vista_linhas(r@) == linhas_de(texto@),
{
    let mut linhas: Vec<Vec<String>> = Vec::new();
    let mut atual: Vec<String> = Vec::new();
    let mut palavra = String::new();
    let mut i: usize = 0;
    assert(texto@.subrange(0, 0) =~= Seq::<char>::empty());
    assert(vista_linhas(linhas@) =~= Seq::<Seq<Seq<char>>>::empty());
    assert(vista_linha(atual@) =~= Seq::<Seq<char>>::empty());
    while i < texto.len()
        invariant
            i <= texto.len(),
            vista_linhas(linhas@) == nao_vazias(varre(texto@.subrange(0, i as int)).concluidas),
            vista_linha(atual@) == varre(texto@.subrange(0, i as int)).atual,
            palavra@ == varre(texto@.subrange(0, i as int)).palavra,
        decreases texto.len() - i,
    {
        let c = texto[i];
        let ghost antes = varre(texto@.subrange(0, i as int));
        assert(texto@.subrange(0, i + 1).drop_last() =~= texto@.subrange(0, i as int));
        assert(texto@.subrange(0, i + 1).last() == c);
        if !(eh_alfanumerico(c) || c == '_') {
            if palavra.unicode_len() > 0 {
                let w = palavra;
                atual.push(w);
                palavra = String::new();
                assert(vista_linha(atual@) =~= antes.atual.push(antes.palavra));
            }
            let ghost a = fecha_palavra(antes.atual, antes.palavra);
            assert(vista_linha(atual@) == a);
            if c == '\r' || c == '\n' {
                if atual.len() > 0 {
                    let l = atual;
                    linhas.push(l);
                    atual = Vec::new();
                    assert(vista_linhas(linhas@) =~= nao_vazias(antes.concluidas).push(a));
                }
                assert(antes.concluidas.push(a).drop_last() =~= antes.concluidas);
                assert(vista_linha(atual@) =~= Seq::<Seq<char>>::empty());
            } else if !(c == '\t' || c == ' ') {
                let mut s = String::new();
                empurra_char(&mut s, c);
                atual.push(s);
                assert(vista_linha(atual@) =~= a.push(seq![c]));
            }
        } else {
            empurra_char(&mut palavra, c);
        }
        i = i + 1;
    }
    let ghost fim = varre(texto@.subrange(0, i as int));
    assert(texto@.subrange(0, i as int) =~= texto@);
    if palavra.unicode_len() > 0 {
        atual.push(palavra);
        assert(vista_linha(atual@) =~= fim.atual.push(fim.palavra));
    }
    let ghost a = fecha_palavra(fim.atual, fim.palavra);
    assert(fim.concluidas.push(a).drop_last() =~= fim.concluidas);
    if atual.len() > 0 {
        linhas.push(atual);
        assert(vista_linhas(linhas@) =~= nao_vazias(fim.concluidas).push(a));
    }
    linhas
}

/// An opening or closing quote.
pub open spec fn eh_aspa(k: Tokens) -> bool {
    k == Tokens::Aspas || k == Tokens::Apostrofo
}

/// The symbol of two characters that two adjacent kinds make, with its text.
pub open spec fn funde(a: Tokens, b: Tokens) -> Option<(Tokens, Seq<char>)> {
    if a == Tokens::DoisPontos && b == Tokens::Igual {
        Some((Tokens::Atribuicao, ":="@))
    } else if a == Tokens::Menor && b == Tokens::Maior {
        Some((Tokens::Diferente, "<>"@))
    } else if a == Tokens::Menor && b == Tokens::Igual {
        Some((Tokens::MenorIgual, "<="@))
    } else if a == Tokens::Maior && b == Tokens::Igual {
        Some((Tokens::MaiorIgual, ">="@))
    } else {
        None
    }
}

/// The token with another kind.
pub open spec fn com_tipo(t: TokenVista, k: Tokens) -> TokenVista {
    TokenVista { tok: t.tok, tipo: k, lin: t.lin, col: t.col }
}

/// The token with another kind and text.
pub open spec fn com_texto(t: TokenVista, k: Tokens, tok: Seq<char>) -> TokenVista {
    TokenVista { tok: tok, tipo: k, lin: t.lin, col: t.col }
}

/// The first pass over a line's tokens, from position `i` on: two adjacent
/// tokens that make a symbol of two characters become one; `//` cuts the
/// line there (the flag says so); a scale factor not after a dot becomes an
/// identifier; a number, a dot and a number become one number. A position is
/// left once it has been looked at. `None` where the pass would read past
/// the end of the line (a number and a dot that end it).
pub open spec fn fase1(v: Seq<TokenVista>, i: nat) -> Option<(Seq<TokenVista>, bool)>
    decreases v.len() - i,
{
    if i + 1 >= v.len() {
        Some((v, false))
    } else {
        let a = v[i as int].tipo;
        let b = v[i + 1int].tipo;
        if funde(a, b) is Some {
            let (k, txt) = funde(a, b).unwrap();
            fase1(v.update(i as int, com_texto(v[i as int], k, txt)).remove(i + 1int), i + 1)
        } else if a == Tokens::Divisao && b == Tokens::Divisao {
            Some((v.take(i as int), true))
        } else if a == Tokens::FatorEscala {
            if i > 0 && v[i - 1].tipo == Tokens::Ponto {
                fase1(v, i + 1)
            } else {
                fase1(v.update(i as int, com_tipo(v[i as int], Tokens::Identificador)), i + 1)
            }
        } else if a == Tokens::Numero && b == Tokens::Ponto {
            if i + 2 >= v.len() {
                None
            } else if v[i + 2int].tipo == Tokens::Numero {
                let t = com_texto(v[i as int], Tokens::Numero, v[i as int].tok + v[i + 1int].tok + v[i + 2int].tok);
                fase1(v.update(i as int, t).remove(i + 1int).remove(i + 1int), i + 1)
            } else {
                fase1(v, i + 1)
            }
        } else {
            fase1(v, i + 1)
        }
    }
}

/// The second pass, from position `p` on, outside or inside a string: every
/// token between an opening quote and the next quote becomes an identifier.
/// Outside a string the pass stops before the last token. `None` where a
/// string is never closed (the pass would read past the end of the line).
pub open spec fn fase2(v: Seq<TokenVista>, p: nat, dentro: bool) -> Option<Seq<TokenVista>>
    decreases v.len() - p,
{
    if dentro {
        if p >= v.len() {
            None
        } else if eh_aspa(v[p as int].tipo) {
            fase2(v, p + 1, false)
        } else {
            fase2(v.update(p as int, com_tipo(v[p as int], Tokens::Identificador)), p + 1, true)
        }
    } else {
        if p + 1 >= v.len() {
            Some(v)
        } else if eh_aspa(v[p as int].tipo) {
            fase2(v, p + 1, true)
        } else {
            fase2(v, p + 1, false)
        }
    }
}

/// The tokens of a line after both passes; a line cut by `//` skips the
/// second. `None` where either pass would read past the end of the line.
pub open spec fn tratamento_spec(v: Seq<TokenVista>) -> Option<Seq<TokenVista>> {
    match fase1(v, 0) {
        None => None,
        Some((w, cortada)) => if cortada {
            Some(w)
        } else {
            fase2(w, 0, false)
        },
    }
}

proof fn lemma_vista_update(s: Seq<Token>, i: int, t: Token)
    requires
        0 <= i < s.len(),
    ensures
        vista_tokens(s.update(i, t)) == vista_tokens(s).update(i, t@),
{
    assert(vista_tokens(s.update(i, t)) =~= vista_tokens(s).update(i, t@));
}

proof fn lemma_vista_remove(s: Seq<Token>, i: int)
    requires
        0 <= i < s.len(),
    ensures
        vista_tokens(s.remove(i)) == vista_tokens(s).remove(i),
{
    assert(vista_tokens(s.remove(i)) =~= vista_tokens(s).remove(i));
}

/// Makes token `i` the symbol `k` written `txt`, in place of it and the token
/// after it.
fn funde_em(v: &mut Vec<Token>, i: usize, k: Tokens, txt: &str)
    requires
        i + 1 < old(v).len(),
    ensures
        vista_tokens(final(v)@) == vista_tokens(old(v)@).update(
            i as int,
            com_texto(old(v)@[i as int]@, k, txt@),
        ).remove(i + 1),
{
    let mut t = v[i].copia();
    t.tipo = k;
    t.tok = txt.to_owned();
    let ghost antes = v@;
    v.set(i, t);
    proof {
        lemma_vista_update(antes, i as int, t);
    }
    let ghost meio = v@;
    v.remove(i + 1);
    proof {
        lemma_vista_remove(meio, i + 1);
    }
}

/// Makes token `i` an identifier.
fn muda_tipo(v: &mut Vec<Token>, i: usize, k: Tokens)
    requires
        i < old(v).len(),
    ensures
        vista_tokens(final(v)@) == vista_tokens(old(v)@).update(i as int, com_tipo(old(v)@[i as int]@, k)),
{
    let mut t = v[i].copia();
    t.tipo = k;
    let ghost antes = v@;
    v.set(i, t);
    proof {
        lemma_vista_update(antes, i as int, t);
    }
}

/// Both passes over a line's tokens; `None` exactly where they would read
/// past the end of the line.
pub fn tratamento_checado(vec_tok: Vec<Token>) -> (r: Option<Vec<Token>>)
    requires
        vec_tok.len() > 0,
    ensures
        match r {
            Some(w) => tratamento_spec(vista_tokens(vec_tok@)) == Some(vista_tokens(w@)),
            None => tratamento_spec(vista_tokens(vec_tok@)) is None,
        },
{
    let mut v = vec_tok;
    let ghost alvo = fase1(vista_tokens(v@), 0);
    let mut tamanho: usize = v.len() - 1;
    let mut i: usize = 0;
    while i < tamanho
        invariant
            tamanho + 1 == v.len(),
            fase1(vista_tokens(v@), i as nat) == alvo,
            alvo == fase1(vista_tokens(vec_tok@), 0),
        decreases v.len() - i,
    {
        let a = v[i].tipo;
        let b = v[i + 1].tipo;
        let ghost w = vista_tokens(v@);
        assert(w[i as int] == v@[i as int]@);
        assert(w[i + 1] == v@[i + 1]@);
        if a == Tokens::DoisPontos && b == Tokens::Igual {
            funde_em(&mut v, i, Tokens::Atribuicao, ":=");
            tamanho = tamanho - 1;
        } else if a == Tokens::Menor && b == Tokens::Maior {
            funde_em(&mut v, i, Tokens::Diferente, "<>");
            tamanho = tamanho - 1;
        } else if a == Tokens::Menor && b == Tokens::Igual {
            funde_em(&mut v, i, Tokens::MenorIgual, "<=");
            tamanho = tamanho - 1;
        } else if a == Tokens::Maior && b == Tokens::Igual {
            funde_em(&mut v, i, Tokens::MaiorIgual, ">=");
            tamanho = tamanho - 1;
        } else if a == Tokens::Divisao && b == Tokens::Divisao {
            v.truncate(i);
            assert(vista_tokens(v@) =~= w.take(i as int));
            return Some(v);
        } else if a == Tokens::FatorEscala {
            if i > 0 {
                assert(w[i - 1] == v@[i - 1]@);
                if v[i - 1].tipo != Tokens::Ponto {
                    muda_tipo(&mut v, i, Tokens::Identificador);
                }
            } else {
                muda_tipo(&mut v, i, Tokens::Identificador);
            }
        } else if a == Tokens::Numero {
            if b == Tokens::Ponto {
                if i + 2 >= v.len() {
                    return None;
                }
                assert(w[i + 2] == v@[i + 2]@);
                if v[i + 2].tipo == Tokens::Numero {
                    let mut aux = v[i].tok.clone();
                    aux.append(v[i + 1].tok.as_str());
                    aux.append(v[i + 2].tok.as_str());
                    let mut t = v[i].copia();
                    t.tok = aux;
                    let ghost a0 = v@;
                    v.set(i, t);
                    proof {
                        lemma_vista_update(a0, i as int, t);
                    }
                    let ghost a1 = v@;
                    v.remove(i + 1);
                    proof {
                        lemma_vista_remove(a1, i + 1);
                    }
                    let ghost a2 = v@;
                    v.remove(i + 1);
                    proof {
                        lemma_vista_remove(a2, i + 1);
                    }
                    tamanho = tamanho - 2;
                }
            }
        }
        i = i + 1;
    }
    let ghost alvo2 = fase2(vista_tokens(v@), 0, false);
    assert(alvo == Some((vista_tokens(v@), false)));
    i = 0;
    while i < tamanho
        invariant
            tamanho + 1 == v.len(),
            fase2(vista_tokens(v@), i as nat, false) == alvo2,
            tratamento_spec(vista_tokens(vec_tok@)) == alvo2,
        decreases v.len() - i,
    {
        let ghost w = vista_tokens(v@);
        assert(w[i as int] == v@[i as int]@);
        if v[i].tipo == Tokens::Aspas || v[i].tipo == Tokens::Apostrofo {
            let mut j: usize = i + 1;
            while j < v.len() && v[j].tipo != Tokens::Aspas && v[j].tipo != Tokens::Apostrofo
                invariant
                    tamanho + 1 == v.len(),
                    i < j,
                    fase2(vista_tokens(v@), j as nat, true) == alvo2,
                    tratamento_spec(vista_tokens(vec_tok@)) == alvo2,
                decreases v.len() - j,
            {
                assert(vista_tokens(v@)[j as int] == v@[j as int]@);
                muda_tipo(&mut v, j, Tokens::Identificador);
                j = j + 1;
            }
            if j >= v.len() {
                return None;
            }
            assert(vista_tokens(v@)[j as int] == v@[j as int]@);
            i = j;
        }
        i = i + 1;
    }
    Some(v)
}

/// Both passes over a line's tokens (see `tratamento_spec`).
pub fn tratamento(vec_tok: Vec<Token>) -> (r: Vec<Token>)
    requires
        vec_tok.len() > 0,
        tratamento_spec(vista_tokens(vec_tok@)) is Some,
    ensures
        tratamento_spec(vista_tokens(vec_tok@)) == Some(vista_tokens(r@)),
{
    match tratamento_checado(vec_tok) {
        Some(w) => w,
        None => {
            assert(false);
            Vec::new()
        }
    }
}

/// Every line that `nao_vazias` keeps holds a lexeme.
proof fn lemma_nao_vazias(ls: Seq<Seq<Seq<char>>>)
    ensures
        forall|i: int| 0 <= i < nao_vazias(ls).len() ==> #[trigger] nao_vazias(ls)[i].len() > 0,
    decreases ls.len(),
{
    if ls.len() > 0 {
        lemma_nao_vazias(ls.drop_last());
        let r = nao_vazias(ls.drop_last());
        if ls.last().len() > 0 {
            assert forall|i: int| 0 <= i < nao_vazias(ls).len() implies #[trigger] nao_vazias(ls)[i].len()
                > 0 by {
                if i < r.len() {
                    assert(nao_vazias(ls)[i] == r[i]);
                }
            }
        }
    }
}

/// Once a prefix of the lines fails, the whole fails the same way.
proof fn lemma_lexico_erro(ls: Seq<Seq<Seq<char>>>, k: int)
    requires
        0 <= k <= ls.len(),
        lexico_spec(ls.subrange(0, k)) is Err,
    ensures
        lexico_spec(ls) == lexico_spec(ls.subrange(0, k)),
    decreases ls.len(),
{
    if k == ls.len() {
        assert(ls.subrange(0, k) =~= ls);
    } else {
        assert(ls.drop_last().subrange(0, k) =~= ls.subrange(0, k));
        lemma_lexico_erro(ls.drop_last(), k);
    }
}

/// The lexer over lines of lexemes, the first line numbered 1: each line is
/// made into tokens and passed through `tratamento_spec`, and the lines left
/// with a token are kept. `Err(i)` for the first line `i` (from 0) on which
/// the passes would read past the end.
pub open spec fn lexico_spec(ls: Seq<Seq<Seq<char>>>) -> Result<Seq<Seq<TokenVista>>, int>
    decreases ls.len(),
{
    if ls.len() == 0 {
        Ok(Seq::empty())
    } else {
        let n = ls.len() - 1;
        match lexico_spec(ls.drop_last()) {
            Err(e) => Err(e),
            Ok(acc) => match tratamento_spec(tokens_da_linha(ls.last(), (n + 1) as i32)) {
                None => Err(n),
                Some(t) => Ok(
                    if t.len() > 0 {
                        acc.push(t)
                    } else {
                        acc
                    },
                ),
            },
        }
    }
}

/// Every token of `v` is on line `n`, or on no line (line zero).
pub open spec fn na_linha_ou_nenhuma(v: Seq<TokenVista>, n: i32) -> bool {
    forall|i: int| 0 <= i < v.len() ==> #[trigger] v[i].lin == n || v[i].lin == 0
}

proof fn lemma_fase1_linhas(v: Seq<TokenVista>, i: nat, n: i32)
    requires
        na_linha_ou_nenhuma(v, n),
    ensures
        fase1(v, i) matches Some((w, _)) ==> na_linha_ou_nenhuma(w, n),
    decreases v.len() - i,
{
    if i + 1 < v.len() {
        let a = v[i as int].tipo;
        let b = v[i + 1int].tipo;
        if funde(a, b) is Some {
            let (k, txt) = funde(a, b).unwrap();
            let u = v.update(i as int, com_texto(v[i as int], k, txt));
            let w = u.remove(i + 1int);
            assert forall|j: int| 0 <= j < w.len() implies #[trigger] w[j].lin == n || w[j].lin == 0 by {
                if j < i + 1 {
                    assert(w[j] == u[j]);
                } else {
                    assert(w[j] == u[j + 1]);
                }
            }
            lemma_fase1_linhas(w, i + 1, n);
        } else if a == Tokens::Divisao && b == Tokens::Divisao {
            let w = v.take(i as int);
            assert forall|j: int| 0 <= j < w.len() implies #[trigger] w[j].lin == n || w[j].lin == 0 by {
                assert(w[j] == v[j]);
            }
        } else if a == Tokens::FatorEscala {
            if i > 0 && v[i - 1].tipo == Tokens::Ponto {
                lemma_fase1_linhas(v, i + 1, n);
            } else {
                let w = v.update(i as int, com_tipo(v[i as int], Tokens::Identificador));
                assert forall|j: int| 0 <= j < w.len() implies #[trigger] w[j].lin == n || w[j].lin == 0 by {
                    assert(v[j].lin == n || v[j].lin == 0);
                }
                lemma_fase1_linhas(w, i + 1, n);
            }
        } else if a == Tokens::Numero && b == Tokens::Ponto {
            if i + 2 < v.len() {
                if v[i + 2int].tipo == Tokens::Numero {
                    let x = com_texto(v[i as int], Tokens::Numero, v[i as int].tok + v[i + 1int].tok + v[i + 2int].tok);
                    let u = v.update(i as int, x);
                    let u2 = u.remove(i + 1int);
                    let w = u2.remove(i + 1int);
                    assert forall|j: int| 0 <= j < u2.len() implies #[trigger] u2[j].lin == n || u2[j].lin == 0 by {
                        if j < i + 1 {
                            assert(u2[j] == u[j]);
                        } else {
                            assert(u2[j] == u[j + 1]);
                        }
                    }
                    assert forall|j: int| 0 <= j < w.len() implies #[trigger] w[j].lin == n || w[j].lin == 0 by {
                        if j < i + 1 {
                            assert(w[j] == u2[j]);
                        } else {
                            assert(w[j] == u2[j + 1]);
                        }
                    }
                    lemma_fase1_linhas(w, i + 1, n);
                } else {
                    lemma_fase1_linhas(v, i + 1, n);
                }
            }
        } else {
            lemma_fase1_linhas(v, i + 1, n);
        }
    }
}

proof fn lemma_fase2_linhas(v: Seq<TokenVista>, p: nat, dentro: bool, n: i32)
    requires
        na_linha_ou_nenhuma(v, n),
    ensures
        fase2(v, p, dentro) matches Some(w) ==> na_linha_ou_nenhuma(w, n),
    decreases v.len() - p,
{
    if dentro {
        if p < v.len() {
            if eh_aspa(v[p as int].tipo) {
                lemma_fase2_linhas(v, p + 1, false, n);
            } else {
                let w = v.update(p as int, com_tipo(v[p as int], Tokens::Identificador));
                assert forall|j: int| 0 <= j < w.len() implies #[trigger] w[j].lin == n || w[j].lin == 0 by {
                    assert(v[j].lin == n || v[j].lin == 0);
                }
                lemma_fase2_linhas(w, p + 1, true, n);
            }
        }
    } else if p + 1 < v.len() {
        if eh_aspa(v[p as int].tipo) {
            lemma_fase2_linhas(v, p + 1, true, n);
        } else {
            lemma_fase2_linhas(v, p + 1, false, n);
        }
    }
}

/// The treatment keeps every token on the line it was on.
proof fn lemma_tratamento_linhas(v: Seq<TokenVista>, n: i32)
    requires
        na_linha_ou_nenhuma(v, n),
    ensures
        tratamento_spec(v) matches Some(w) ==> na_linha_ou_nenhuma(w, n),
{
    lemma_fase1_linhas(v, 0, n);
    if let Some((w, cortada)) = fase1(v, 0) {
        lemma_fase2_linhas(w, 0, false, n);
    }
}

/// The line numbers of a table of tokens: the tokens of one line of the
/// table that are on a line (not zero) are all on the same one, numbered
/// from one to `total`, and those numbers grow strictly along the table.
pub open spec fn linhas_crescentes(t: Seq<Seq<TokenVista>>, total: int) -> bool {
    &&& forall|i: int, p: int|
        0 <= i < t.len() && 0 <= p < t[i].len() && #[trigger] t[i][p].lin != 0 ==> 1 <= t[i][p].lin <= total
    &&& forall|i: int, p: int, q: int|
        0 <= i < t.len() && 0 <= p < t[i].len() && 0 <= q < t[i].len() && #[trigger] t[i][p].lin != 0
            && #[trigger] t[i][q].lin != 0 ==> t[i][p].lin == t[i][q].lin
    &&& forall|i: int, j: int, p: int, q: int|
        0 <= i < j < t.len() && 0 <= p < t[i].len() && 0 <= q < t[j].len() && #[trigger] t[i][p].lin != 0
            && #[trigger] t[j][q].lin != 0 ==> t[i][p].lin < t[j][q].lin
}

/// The line numbers of the tokens: in the table the lexer makes of lines of
/// lexemes, each token is on the number of the line of lexemes it came from
/// (counted from one) or on no line at all, so the tokens of one line of the
/// table share their number, and the numbers grow along the table.
pub proof fn lei_linhas_dos_tokens(ls: Seq<Seq<Seq<char>>>)
    requires
        ls.len() < i32::MAX,
    ensures
        lexico_spec(ls) matches Ok(t) ==> linhas_crescentes(t, ls.len() as int),
    decreases ls.len(),
{
    if ls.len() > 0 {
        let n = ls.len() - 1;
        lei_linhas_dos_tokens(ls.drop_last());
        if let Ok(acc) = lexico_spec(ls.drop_last()) {
            let num = (n + 1) as i32;
            let v = tokens_da_linha(ls.last(), num);
            assert forall|i: int| 0 <= i < v.len() implies #[trigger] v[i].lin == num || v[i].lin == 0 by {
                assert(v[i] == token_de(ls.last()[i], num));
            }
            lemma_tratamento_linhas(v, num);
            if let Some(tl) = tratamento_spec(v) {
                if tl.len() > 0 {
                    let t = acc.push(tl);
                    assert(num == n + 1);
                    assert forall|i: int, p: int|
                        0 <= i < t.len() && 0 <= p < t[i].len() && #[trigger] t[i][p].lin != 0 implies 1 <= t[i][p].lin
                        <= ls.len() by {
                        if i < acc.len() {
                            assert(t[i] == acc[i]);
                        } else {
                            assert(t[i] == tl);
                        }
                    }
                    assert forall|i: int, p: int, q: int|
                        0 <= i < t.len() && 0 <= p < t[i].len() && 0 <= q < t[i].len() && #[trigger] t[i][p].lin != 0
                            && #[trigger] t[i][q].lin != 0 implies t[i][p].lin == t[i][q].lin by {
                        if i < acc.len() {
                            assert(t[i] == acc[i]);
                        } else {
                            assert(t[i] == tl);
                        }
                    }
                    assert forall|i: int, j: int, p: int, q: int|
                        0 <= i < j < t.len() && 0 <= p < t[i].len() && 0 <= q < t[j].len() && #[trigger] t[i][p].lin
                            != 0 && #[trigger] t[j][q].lin != 0 implies t[i][p].lin < t[j][q].lin by {
                        assert(t[i] == acc[i]);
                        if j < acc.len() {
                            assert(t[j] == acc[j]);
                        } else {
                            assert(t[j] == tl);
                        }
                    }
                }
            }
        }
    }
}

/// The tokens of a table, as plain values.
pub open spec fn vista_tabela(t: Seq<Vec<Token>>) -> Seq<Seq<TokenVista>> {
    t.map_values(|l: Vec<Token>| vista_tokens(l@))
}

/// The table of tokens of a source text: its lines of lexemes
/// (`tabelaSimbolos`), each made into tokens (`analisaLexico`) and treated
/// (`tratamento`), the empty lines left out. `Err(i)` where the treatment of
/// line `i` (from 0) would read past the end of the line.
pub fn analisa_texto(texto: &Vec<char>) -> (r: Result<Vec<Vec<Token>>, usize>)
    ensures
        match r {
            Ok(t) => lexico_spec(linhas_de(texto@)) == Ok::<Seq<Seq<TokenVista>>, int>(vista_tabela(t@)),
            Err(i) => lexico_spec(linhas_de(texto@)) == Err::<Seq<Seq<TokenVista>>, int>(i as int),
        },
{
    let linhas = tabelaSimbolos(texto);
    let ghost ls = linhas_de(texto@);
    proof {
        lemma_nao_vazias(varre(texto@).concluidas.push(fecha_palavra(varre(texto@).atual, varre(texto@).palavra)));
    }
    let mut tabela: Vec<Vec<Token>> = Vec::new();
    let mut i: usize = 0;
    assert(ls.subrange(0, 0) =~= Seq::<Seq<Seq<char>>>::empty());
    assert(vista_tabela(tabela@) =~= Seq::<Seq<TokenVista>>::empty());
    while i < linhas.len()
        invariant
            ls == linhas_de(texto@),
            vista_linhas(linhas@) == ls,
            forall|k: int| 0 <= k < ls.len() ==> #[trigger] ls[k].len() > 0,
            i <= linhas.len(),
            lexico_spec(ls.subrange(0, i as int)) == Ok::<Seq<Seq<TokenVista>>, int>(vista_tabela(tabela@)),
        decreases linhas.len() - i,
    {
        assert(ls.subrange(0, i + 1).drop_last() =~= ls.subrange(0, i as int));
        assert(ls.subrange(0, i + 1).last() == ls[i as int]);
        assert(vista_linha(linhas[i as int]@) == ls[i as int]);
        let toks = analisaLexico(&linhas[i], #[verifier::truncate] ((i + 1) as i32));
        assert(ls[i as int].len() > 0);
        assert(vista_tokens(toks@).len() > 0);
        let ghost vt = toks@;
        match tratamento_checado(toks) {
            None => {
                proof {
                    let sub = ls.subrange(0, i + 1);
                    assert(sub.len() - 1 == i);
                    assert(((sub.len() - 1) + 1) as i32 == (i + 1) as i32);
                    assert(tokens_da_linha(sub.last(), ((sub.len() - 1) + 1) as i32) == vista_tokens(vt));
                    assert(lexico_spec(sub) == Err::<Seq<Seq<TokenVista>>, int>(i as int));
                    lemma_lexico_erro(ls, i + 1);
                }
                return Err(i);
            },
            Some(t) => {
                if t.len() > 0 {
                    let ghost antes = tabela@;
                    tabela.push(t);
                    assert(vista_tabela(tabela@) =~= vista_tabela(antes).push(vista_tokens(t@)));
                }
            },
        }
        i = i + 1;
    }
    assert(ls.subrange(0, i as int) =~= ls);
    Ok(tabela)
}

/// The table with the first token of line `linha` removed.
pub open spec fn sem_primeiro(t: Seq<Seq<TokenVista>>, linha: int) -> Seq<Seq<TokenVista>> {
    t.update(linha, t[linha].drop_first())
}

/// The empty token, as plain values.
pub open spec fn vazio() -> TokenVista {
    TokenVista { tok: Seq::empty(), tipo: Tokens::Comentario, lin: 0, col: 0 }
}

/// Whether line `linha` of the table still holds a token.
pub fn hasToken(tabela: &Vec<Vec<Token>>, linha: usize) -> (r: bool)
    requires
        linha < tabela.len(),
    ensures
        r == (tabela@[linha as int].len() > 0),
{
    !tabela[linha].is_empty()
}

/// The first token of line `linha`.
pub fn getToken(tabela: &Vec<Vec<Token>>, linha: usize) -> (t: Token)
    requires
        linha < tabela.len(),
        tabela@[linha as int].len() > 0,
    ensures
        t == tabela@[linha as int]@[0],
{
    tabela[linha][0].copia()
}

/// Removes the first token of line `linha`; the other lines stay as they
/// were.
pub fn eraseToken(tabela: &mut Vec<Vec<Token>>, linha: usize)
    requires
        linha < old(tabela).len(),
        old(tabela)@[linha as int].len() > 0,
    ensures
        vista_tabela(final(tabela)@) == sem_primeiro(vista_tabela(old(tabela)@), linha as int),
{
    let ghost antes = tabela@;
    let mut l = tabela.remove(linha);
    let ghost l0 = l@;
    l.remove(0);
    assert(vista_tokens(l@) =~= vista_tokens(l0).drop_first());
    tabela.insert(linha, l);
    assert(vista_tabela(tabela@) =~= sem_primeiro(vista_tabela(antes), linha as int));
}

/// The first token of line `linha` when the line holds more than one token,
/// else the empty token.
pub fn lookahead_nextline(tabela: &Vec<Vec<Token>>, linha: usize) -> (t: Token)
    requires
        linha < tabela.len(),
    ensures
        t@ == if tabela@[linha as int].len() > 1 { tabela@[linha as int]@[0]@ } else { vazio() },
{
    if size(tabela, linha) > 1 {
        tabela[linha][0].copia()
    } else {
        Token::new()
    }
}

/// The second token of line `linha` when the line holds more than one token,
/// else the empty token.
pub fn lookahead(tabela: &Vec<Vec<Token>>, linha: usize) -> (t: Token)
    requires
        linha < tabela.len(),
    ensures
        t@ == if tabela@[linha as int].len() > 1 { tabela@[linha as int]@[1]@ } else { vazio() },
{
    if size(tabela, linha) > 1 {
        tabela[linha][1].copia()
    } else {
        Token::new()
    }
}

/// The number of tokens left on line `linha`.
pub fn size(tabela: &Vec<Vec<Token>>, linha: usize) -> (n: usize)
    requires
        linha < tabela.len(),
    ensures
        n == tabela@[linha as int].len(),
{
    tabela[linha].len()
}

/// Reading ahead on a line gives the token that comes first once the first
/// one is removed.
pub proof fn lei_lookahead_apos_apagar(t: Seq<Seq<TokenVista>>, linha: int)
    requires
        0 <= linha < t.len(),
        t[linha].len() > 1,
    ensures
        sem_primeiro(t, linha)[linha][0] == t[linha][1],
        sem_primeiro(t, linha)[linha].len() == t[linha].len() - 1,
{
}


/// The text with the blanks and line breaks that end lexemes left out.
pub open spec fn sem_brancos(s: Seq<char>) -> Seq<char>
    decreases s.len(),
{
    if s.len() == 0 {
        Seq::empty()
    } else {
        let c = s.last();
        if eh_separador(c) && (eh_quebra(c) || eh_espaco(c)) {
            sem_brancos(s.drop_last())
        } else {
            sem_brancos(s.drop_last()).push(c)
        }
    }
}

/// The lexemes of a line, written one after the other.
pub open spec fn junta_linha(l: Seq<Seq<char>>) -> Seq<char>
    decreases l.len(),
{
    if l.len() == 0 {
        Seq::empty()
    } else {
        junta_linha(l.drop_last()) + l.last()
    }
}

/// The lexemes of lines, written one after the other.
pub open spec fn junta_linhas(ls: Seq<Seq<Seq<char>>>) -> Seq<char>
    decreases ls.len(),
{
    if ls.len() == 0 {
        Seq::empty()
    } else {
        junta_linhas(ls.drop_last()) + junta_linha(ls.last())
    }
}

proof fn lemma_junta_nao_vazias(ls: Seq<Seq<Seq<char>>>)
    ensures
        junta_linhas(nao_vazias(ls)) == junta_linhas(ls),
    decreases ls.len(),
{
    if ls.len() > 0 {
        lemma_junta_nao_vazias(ls.drop_last());
        if ls.last().len() == 0 {
            assert(junta_linhas(ls) =~= junta_linhas(ls.drop_last()));
        } else {
            assert(nao_vazias(ls).drop_last() =~= nao_vazias(ls.drop_last()));
        }
    }
}

proof fn lemma_varre_sem_brancos(s: Seq<char>)
    ensures
        junta_linhas(varre(s).concluidas) + junta_linha(varre(s).atual) + varre(s).palavra == sem_brancos(s),
    decreases s.len(),
{
    if s.len() == 0 {
        assert(junta_linhas(varre(s).concluidas) + junta_linha(varre(s).atual) + varre(s).palavra =~= sem_brancos(s));
    } else {
        lemma_varre_sem_brancos(s.drop_last());
        let v = varre(s.drop_last());
        let c = s.last();
        let a = fecha_palavra(v.atual, v.palavra);
        assert(junta_linha(a) =~= junta_linha(v.atual) + v.palavra) by {
            if v.palavra.len() > 0 {
                assert(a.drop_last() =~= v.atual);
            }
        }
        if !eh_separador(c) {
            assert(junta_linhas(varre(s).concluidas) + junta_linha(varre(s).atual) + varre(s).palavra =~= sem_brancos(s));
        } else if eh_quebra(c) {
            assert(v.concluidas.push(a).drop_last() =~= v.concluidas);
            assert(junta_linhas(varre(s).concluidas) + junta_linha(varre(s).atual) + varre(s).palavra =~= sem_brancos(s));
        } else if !eh_espaco(c) {
            assert(a.push(seq![c]).drop_last() =~= a);
            assert(junta_linhas(varre(s).concluidas) + junta_linha(varre(s).atual) + varre(s).palavra =~= sem_brancos(s));
        } else {
            assert(junta_linhas(varre(s).concluidas) + junta_linha(varre(s).atual) + varre(s).palavra =~= sem_brancos(s));
        }
    }
}

/// The lexer loses no character but the blanks and line breaks that end
/// lexemes: its lexemes, written one after the other, are the source text
/// without them.
pub proof fn lei_lexemas_cobrem_o_texto(s: Seq<char>)
    ensures
        junta_linhas(linhas_de(s)) == sem_brancos(s),
{
    let v = varre(s);
    let a = fecha_palavra(v.atual, v.palavra);
    lemma_varre_sem_brancos(s);
    lemma_junta_nao_vazias(v.concluidas.push(a));
    assert(v.concluidas.push(a).drop_last() =~= v.concluidas);
    assert(junta_linha(a) =~= junta_linha(v.atual) + v.palavra) by {
        if v.palavra.len() > 0 {
            assert(a.drop_last() =~= v.atual);
        }
    }
    assert(junta_linhas(v.concluidas.push(a)) =~= sem_brancos(s));
}

/// A lexeme as the splitting makes it: one separator that is neither a
/// blank nor a line break, or a nonempty run of characters that are
/// alphanumeric or `_`.
pub open spec fn lexema_valido(w: Seq<char>) -> bool {
    ||| (w.len() == 1 && eh_separador(w[0]) && !eh_quebra(w[0]) && !eh_espaco(w[0]))
    ||| (w.len() > 0 && forall|i: int| 0 <= i < w.len() ==> !eh_separador(#[trigger] w[i]))
}

/// Every lexeme of a line is one as the splitting makes it.
pub open spec fn linha_valida(l: Seq<Seq<char>>) -> bool {
    forall|j: int| 0 <= j < l.len() ==> lexema_valido(#[trigger] l[j])
}

proof fn lemma_varre_validos(s: Seq<char>)
    ensures
        forall|i: int| 0 <= i < varre(s).concluidas.len() ==> linha_valida(#[trigger] varre(s).concluidas[i]),
        linha_valida(varre(s).atual),
        forall|i: int| 0 <= i < varre(s).palavra.len() ==> !eh_separador(#[trigger] varre(s).palavra[i]),
    decreases s.len(),
{
    if s.len() > 0 {
        lemma_varre_validos(s.drop_last());
        let v = varre(s.drop_last());
        let c = s.last();
        let a = fecha_palavra(v.atual, v.palavra);
        assert(linha_valida(a)) by {
            if v.palavra.len() > 0 {
                assert forall|j: int| 0 <= j < a.len() implies lexema_valido(#[trigger] a[j]) by {
                    if j < v.atual.len() {
                        assert(a[j] == v.atual[j]);
                    } else {
                        assert(a[j] == v.palavra);
                    }
                }
            }
        }
        if !eh_separador(c) {
            let w = v.palavra.push(c);
            assert forall|i: int| 0 <= i < w.len() implies !eh_separador(#[trigger] w[i]) by {
                if i < v.palavra.len() {
                    assert(w[i] == v.palavra[i]);
                }
            }
        } else if eh_quebra(c) {
            let cs = v.concluidas.push(a);
            assert forall|i: int| 0 <= i < cs.len() implies linha_valida(#[trigger] cs[i]) by {
                if i < v.concluidas.len() {
                    assert(cs[i] == v.concluidas[i]);
                }
            }
        } else if !eh_espaco(c) {
            let b = a.push(seq![c]);
            assert forall|j: int| 0 <= j < b.len() implies lexema_valido(#[trigger] b[j]) by {
                if j < a.len() {
                    assert(b[j] == a[j]);
                } else {
                    assert(b[j] == seq![c]);
                    assert(b[j][0] == c);
                }
            }
        }
    }
}

proof fn lemma_nao_vazias_validas(ls: Seq<Seq<Seq<char>>>)
    requires
        forall|i: int| 0 <= i < ls.len() ==> linha_valida(#[trigger] ls[i]),
    ensures
        forall|i: int| 0 <= i < nao_vazias(ls).len() ==> linha_valida(#[trigger] nao_vazias(ls)[i]),
    decreases ls.len(),
{
    if ls.len() > 0 {
        assert forall|i: int| 0 <= i < ls.drop_last().len() implies linha_valida(#[trigger] ls.drop_last()[i]) by {
            assert(ls.drop_last()[i] == ls[i]);
        }
        lemma_nao_vazias_validas(ls.drop_last());
        let r = nao_vazias(ls.drop_last());
        if ls.last().len() > 0 {
            assert forall|i: int| 0 <= i < nao_vazias(ls).len() implies linha_valida(#[trigger] nao_vazias(ls)[i]) by {
                if i < r.len() {
                    assert(nao_vazias(ls)[i] == r[i]);
                } else {
                    assert(nao_vazias(ls)[i] == ls[ls.len() - 1]);
                }
            }
        }
    }
}

/// The splitting into lines of lexemes keeps no empty line, and every lexeme
/// is either one separator that is neither a blank nor a line break, or a
/// nonempty run of alphanumeric characters and `_`.
pub proof fn lei_lexemas_validos(s: Seq<char>)
    ensures
        forall|i: int| 0 <= i < linhas_de(s).len() ==> (#[trigger] linhas_de(s)[i]).len() > 0 && linha_valida(linhas_de(s)[i]),
{
    let v = varre(s);
    let a = fecha_palavra(v.atual, v.palavra);
    lemma_varre_validos(s);
    assert(linha_valida(a)) by {
        if v.palavra.len() > 0 {
            assert forall|j: int| 0 <= j < a.len() implies lexema_valido(#[trigger] a[j]) by {
                if j < v.atual.len() {
                    assert(a[j] == v.atual[j]);
                } else {
                    assert(a[j] == v.palavra);
                }
            }
        }
    }
    let ls = v.concluidas.push(a);
    assert forall|i: int| 0 <= i < ls.len() implies linha_valida(#[trigger] ls[i]) by {
        if i < v.concluidas.len() {
            assert(ls[i] == v.concluidas[i]);
        }
    }
    lemma_nao_vazias_validas(ls);
    lemma_nao_vazias(ls);
}

proof fn lemma_fase1_encurta(v: Seq<TokenVista>, i: nat)
    ensures
        fase1(v, i) matches Some((w, _)) ==> w.len() <= v.len(),
    decreases v.len() - i,
{
    if i + 1 < v.len() {
        let a = v[i as int].tipo;
        let b = v[i + 1int].tipo;
        if funde(a, b) is Some {
            let (k, txt) = funde(a, b).unwrap();
            lemma_fase1_encurta(v.update(i as int, com_texto(v[i as int], k, txt)).remove(i + 1int), i + 1);
        } else if a == Tokens::Divisao && b == Tokens::Divisao {
        } else if a == Tokens::FatorEscala {
            if i > 0 && v[i - 1].tipo == Tokens::Ponto {
                lemma_fase1_encurta(v, i + 1);
            } else {
                lemma_fase1_encurta(v.update(i as int, com_tipo(v[i as int], Tokens::Identificador)), i + 1);
            }
        } else if a == Tokens::Numero && b == Tokens::Ponto {
            if i + 2 < v.len() {
                if v[i + 2int].tipo == Tokens::Numero {
                    let t = com_texto(v[i as int], Tokens::Numero, v[i as int].tok + v[i + 1int].tok + v[i + 2int].tok);
                    lemma_fase1_encurta(v.update(i as int, t).remove(i + 1int).remove(i + 1int), i + 1);
                } else {
                    lemma_fase1_encurta(v, i + 1);
                }
            }
        } else {
            lemma_fase1_encurta(v, i + 1);
        }
    }
}

proof fn lemma_fase2_mesmo_tamanho(v: Seq<TokenVista>, p: nat, dentro: bool)
    ensures
        fase2(v, p, dentro) matches Some(w) ==> w.len() == v.len(),
    decreases v.len() - p,
{
    if dentro {
        if p < v.len() {
            if eh_aspa(v[p as int].tipo) {
                lemma_fase2_mesmo_tamanho(v, p + 1, false);
            } else {
                lemma_fase2_mesmo_tamanho(v.update(p as int, com_tipo(v[p as int], Tokens::Identificador)), p + 1, true);
            }
        }
    } else if p + 1 < v.len() {
        if eh_aspa(v[p as int].tipo) {
            lemma_fase2_mesmo_tamanho(v, p + 1, true);
        } else {
            lemma_fase2_mesmo_tamanho(v, p + 1, false);
        }
    }
}

/// The treatment of a line never adds a token: joining symbols and cutting
/// comments only take tokens away, and marking strings changes none.
pub proof fn lei_tratamento_nao_alonga(v: Seq<TokenVista>)
    ensures
        tratamento_spec(v) matches Some(w) ==> w.len() <= v.len(),
{
    lemma_fase1_encurta(v, 0);
    if let Some((w, cortada)) = fase1(v, 0) {
        lemma_fase2_mesmo_tamanho(w, 0, false);
    }
}

/// The kinds whose printed name is a reserved word or a symbol of one
/// character: all but identifiers, numbers, the symbols of two characters,
/// the scale factor and the empty token.
pub open spec fn nome_de_palavra_ou_simbolo(k: Tokens) -> bool {
    !(k is Identificador || k is Numero || k is Atribuicao || k is Diferente || k is MenorIgual
        || k is MaiorIgual || k is FatorEscala || k is Comentario)
}

/// Lexing the printed name of a reserved word or of a symbol of one
/// character gives its kind back: the name is ASCII text, and read with its
/// ASCII lowercase (which `tipo_lexema` takes for ASCII text) it is a lexeme
/// of that kind.
#[verifier::rlimit(100)]
pub proof fn lei_nome_lido_de_volta(k: Tokens)
    requires
        nome_de_palavra_ou_simbolo(k),
    ensures
        texto_ascii(nome_spec(k)),
        tipo_lexema_de(nome_spec(k), minusculas_ascii(nome_spec(k))) == Some(k),
{
    reveal_strlit("$");
    reveal_strlit("%");
    reveal_strlit("&");
    reveal_strlit("'");
    reveal_strlit("(");
    reveal_strlit(")");
    reveal_strlit("*");
    reveal_strlit("+");
    reveal_strlit(",");
    reveal_strlit("-");
    reveal_strlit(".");
    reveal_strlit("..");
    reveal_strlit("/");
    reveal_strlit(":");
    reveal_strlit(";");
    reveal_strlit("<");
    reveal_strlit("=");
    reveal_strlit(">");
    reveal_strlit("And");
    reveal_strlit("Array");
    reveal_strlit("Asm");
    reveal_strlit("Begin");
    reveal_strlit("Boolean");
    reveal_strlit("Case");
    reveal_strlit("Char");
    reveal_strlit("Const");
    reveal_strlit("Div");
    reveal_strlit("Do");
    reveal_strlit("Downto");
    reveal_strlit("Else");
    reveal_strlit("End");
    reveal_strlit("False");
    reveal_strlit("File");
    reveal_strlit("For");
    reveal_strlit("Forward");
    reveal_strlit("Function");
    reveal_strlit("Goto");
    reveal_strlit("If");
    reveal_strlit("In");
    reveal_strlit("Inline");
    reveal_strlit("Integer");
    reveal_strlit("Label");
    reveal_strlit("Mod");
    reveal_strlit("Nil");
    reveal_strlit("Not");
    reveal_strlit("Object");
    reveal_strlit("Of");
    reveal_strlit("Or");
    reveal_strlit("Packed");
    reveal_strlit("Procedure");
    reveal_strlit("Program");
    reveal_strlit("Read");
    reveal_strlit("Real");
    reveal_strlit("Record");
    reveal_strlit("Repeat");
    reveal_strlit("Set");
    reveal_strlit("String");
    reveal_strlit("Then");
    reveal_strlit("To");
    reveal_strlit("True");
    reveal_strlit("Type");
    reveal_strlit("Until");
    reveal_strlit("Var");
    reveal_strlit("While");
    reveal_strlit("With");
    reveal_strlit("Write");
    reveal_strlit("[");
    reveal_strlit("\"");
    reveal_strlit("\'");
    reveal_strlit("]");
    reveal_strlit("and");
    reveal_strlit("array");
    reveal_strlit("asm");
    reveal_strlit("begin");
    reveal_strlit("boolean");
    reveal_strlit("case");
    reveal_strlit("char");
    reveal_strlit("const");
    reveal_strlit("div");
    reveal_strlit("do");
    reveal_strlit("downto");
    reveal_strlit("else");
    reveal_strlit("end");
    reveal_strlit("false");
    reveal_strlit("file");
    reveal_strlit("for");
    reveal_strlit("forward");
    reveal_strlit("function");
    reveal_strlit("goto");
    reveal_strlit("if");
    reveal_strlit("in");
    reveal_strlit("inline");
    reveal_strlit("integer");
    reveal_strlit("label");
    reveal_strlit("mod");
    reveal_strlit("nil");
    reveal_strlit("not");
    reveal_strlit("object");
    reveal_strlit("of");
    reveal_strlit("or");
    reveal_strlit("packed");
    reveal_strlit("procedure");
    reveal_strlit("program");
    reveal_strlit("read");
    reveal_strlit("real");
    reveal_strlit("record");
    reveal_strlit("repeat");
    reveal_strlit("set");
    reveal_strlit("string");
    reveal_strlit("then");
    reveal_strlit("to");
    reveal_strlit("true");
    reveal_strlit("type");
    reveal_strlit("until");
    reveal_strlit("var");
    reveal_strlit("while");
    reveal_strlit("with");
    reveal_strlit("write");
    reveal_with_fuel(texto_ascii, 10);
    match k {
        Tokens::And => {
            assert(minusculas_ascii("And"@) =~= "and"@);
            assert(texto_ascii(nome_spec(k)));
            assert(tipo_lexema_de(nome_spec(k), minusculas_ascii(nome_spec(k))) == Some(k));
        },
        Tokens::Array => {
            assert(minusculas_ascii("Array"@) =~= "array"@);
            assert(texto_ascii(nome_spec(k)));
            assert(tipo_lexema_de(nome_spec(k), minusculas_ascii(nome_spec(k))) == Some(k));
        },
        Tokens::Asm => {
            assert(minusculas_ascii("Asm"@) =~= "asm"@);
            assert("asm"@[1] != "and"@[1]);
            assert(texto_ascii(nome_spec(k)));
            assert(tipo_lexema_de(nome_spec(k), minusculas_ascii(nome_spec(k))) == Some(k));
        },
        Tokens::Begin => {
            assert(minusculas_ascii("Begin"@) =~= "begin"@);
            assert("begin"@[0] != "array"@[0]);
            assert(texto_ascii(nome_spec(k)));
            assert(tipo_lexema_de(nome_spec(k), minusculas_ascii(nome_spec(k))) == Some(k));
        },
        Tokens::Boolean => {
            assert(minusculas_ascii("Boolean"@) =~= "boolean"@);
            assert(texto_ascii(nome_spec(k)));
            assert(tipo_lexema_de(nome_spec(k), minusculas_ascii(nome_spec(k))) == Some(k));
        },
        Tokens::Case => {
            assert(minusculas_ascii("Case"@) =~= "case"@);
            assert(texto_ascii(nome_spec(k)));
            assert(tipo_lexema_de(nome_spec(k), minusculas_ascii(nome_spec(k))) == Some(k));
        },
        Tokens::Char => {
            assert(minusculas_ascii("Char"@) =~= "char"@);
            assert("char"@[1] != "case"@[1]);
            assert(texto_ascii(nome_spec(k)));
            assert(tipo_lexema_de(nome_spec(k), minusculas_ascii(nome_spec(k))) == Some(k));
        },
        Tokens::Const => {
            assert(minusculas_ascii("Const"@) =~= "const"@);
            assert("const"@[0] != "array"@[0]);
            assert("const"@[0] != "begin"@[0]);
            assert(texto_ascii(nome_spec(k)));
            assert(tipo_lexema_de(nome_spec(k), minusculas_ascii(nome_spec(k))) == Some(k));
        },
        Tokens::Div => {
            assert(minusculas_ascii("Div"@) =~= "div"@);
            assert("div"@[0] != "and"@[0]);
            assert("div"@[0] != "asm"@[0]);
            assert(texto_ascii(nome_spec(k)));
            assert(tipo_lexema_de(nome_spec(k), minusculas_ascii(nome_spec(k))) == Some(k));
        },
        Tokens::Do => {
            assert(minusculas_ascii("Do"@) =~= "do"@);
            assert(texto_ascii(nome_spec(k)));
            assert(tipo_lexema_de(nome_spec(k), minusculas_ascii(nome_spec(k))) == Some(k));
        },
        Tokens::Downto => {
            assert(minusculas_ascii("Downto"@) =~= "downto"@);
            assert(texto_ascii(nome_spec(k)));
            assert(tipo_lexema_de(nome_spec(k), minusculas_ascii(nome_spec(k))) == Some(k));
        },
        Tokens::Else => {
            assert(minusculas_ascii("Else"@) =~= "else"@);
            assert("else"@[0] != "case"@[0]);
            assert("else"@[0] != "char"@[0]);
            assert(texto_ascii(nome_spec(k)));
            assert(tipo_lexema_de(nome_spec(k), minusculas_ascii(nome_spec(k))) == Some(k));
        },
        Tokens::End => {
            assert(minusculas_ascii("End"@) =~= "end"@);
            assert("end"@[0] != "and"@[0]);
            assert("end"@[0] != "asm"@[0]);
            assert("end"@[0] != "div"@[0]);
            assert(texto_ascii(nome_spec(k)));
            assert(tipo_lexema_de(nome_spec(k), minusculas_ascii(nome_spec(k))) == Some(k));
        },
        Tokens::False => {
            assert(minusculas_ascii("False"@) =~= "false"@);
            assert("false"@[0] != "array"@[0]);
            assert("false"@[0] != "begin"@[0]);
            assert("false"@[0] != "const"@[0]);
            assert(texto_ascii(nome_spec(k)));
            assert(tipo_lexema_de(nome_spec(k), minusculas_ascii(nome_spec(k))) == Some(k));
        },
        Tokens::File => {
            assert(minusculas_ascii("File"@) =~= "file"@);
            assert("file"@[0] != "case"@[0]);
            assert("file"@[0] != "char"@[0]);
            assert("file"@[0] != "else"@[0]);
            assert(texto_ascii(nome_spec(k)));
            assert(tipo_lexema_de(nome_spec(k), minusculas_ascii(nome_spec(k))) == Some(k));
        },
        Tokens::For => {
            assert(minusculas_ascii("For"@) =~= "for"@);
            assert("for"@[0] != "and"@[0]);
            assert("for"@[0] != "asm"@[0]);
            assert("for"@[0] != "div"@[0]);
            assert("for"@[0] != "end"@[0]);
            assert(texto_ascii(nome_spec(k)));
            assert(tipo_lexema_de(nome_spec(k), minusculas_ascii(nome_spec(k))) == Some(k));
        },
        Tokens::Forward => {
            assert(minusculas_ascii("Forward"@) =~= "forward"@);
            assert("forward"@[0] != "boolean"@[0]);
            assert(texto_ascii(nome_spec(k)));
            assert(tipo_lexema_de(nome_spec(k), minusculas_ascii(nome_spec(k))) == Some(k));
        },
        Tokens::Function => {
            assert(minusculas_ascii("Function"@) =~= "function"@);
            assert(texto_ascii(nome_spec(k)));
            assert(tipo_lexema_de(nome_spec(k), minusculas_ascii(nome_spec(k))) == Some(k));
        },
        Tokens::Goto => {
            assert(minusculas_ascii("Goto"@) =~= "goto"@);
            assert("goto"@[0] != "case"@[0]);
            assert("goto"@[0] != "char"@[0]);
            assert("goto"@[0] != "else"@[0]);
            assert("goto"@[0] != "file"@[0]);
            assert(texto_ascii(nome_spec(k)));
            assert(tipo_lexema_de(nome_spec(k), minusculas_ascii(nome_spec(k))) == Some(k));
        },
        Tokens::If => {
            assert(minusculas_ascii("If"@) =~= "if"@);
            assert("if"@[0] != "do"@[0]);
            assert(texto_ascii(nome_spec(k)));
            assert(tipo_lexema_de(nome_spec(k), minusculas_ascii(nome_spec(k))) == Some(k));
        },
        Tokens::In => {
            assert(minusculas_ascii("In"@) =~= "in"@);
            assert("in"@[0] != "do"@[0]);
            assert("in"@[1] != "if"@[1]);
            assert(texto_ascii(nome_spec(k)));
            assert(tipo_lexema_de(nome_spec(k), minusculas_ascii(nome_spec(k))) == Some(k));
        },
        Tokens::Inline => {
            assert(minusculas_ascii("Inline"@) =~= "inline"@);
            assert("inline"@[0] != "downto"@[0]);
            assert(texto_ascii(nome_spec(k)));
            assert(tipo_lexema_de(nome_spec(k), minusculas_ascii(nome_spec(k))) == Some(k));
        },
        Tokens::Integer => {
            assert(minusculas_ascii("Integer"@) =~= "integer"@);
            assert("integer"@[0] != "boolean"@[0]);
            assert("integer"@[0] != "forward"@[0]);
            assert(texto_ascii(nome_spec(k)));
            assert(tipo_lexema_de(nome_spec(k), minusculas_ascii(nome_spec(k))) == Some(k));
        },
        Tokens::Label => {
            assert(minusculas_ascii("Label"@) =~= "label"@);
            assert("label"@[0] != "array"@[0]);
            assert("label"@[0] != "begin"@[0]);
            assert("label"@[0] != "const"@[0]);
            assert("label"@[0] != "false"@[0]);
            assert(texto_ascii(nome_spec(k)));
            assert(tipo_lexema_de(nome_spec(k), minusculas_ascii(nome_spec(k))) == Some(k));
        },
        Tokens::Mod => {
            assert(minusculas_ascii("Mod"@) =~= "mod"@);
            assert("mod"@[0] != "and"@[0]);
            assert("mod"@[0] != "asm"@[0]);
            assert("mod"@[0] != "div"@[0]);
            assert("mod"@[0] != "end"@[0]);
            assert("mod"@[0] != "for"@[0]);
            assert(texto_ascii(nome_spec(k)));
            assert(tipo_lexema_de(nome_spec(k), minusculas_ascii(nome_spec(k))) == Some(k));
        },
        Tokens::Nil => {
            assert(minusculas_ascii("Nil"@) =~= "nil"@);
            assert("nil"@[0] != "and"@[0]);
            assert("nil"@[0] != "asm"@[0]);
            assert("nil"@[0] != "div"@[0]);
            assert("nil"@[0] != "end"@[0]);
            assert("nil"@[0] != "for"@[0]);
            assert("nil"@[0] != "mod"@[0]);
            assert(texto_ascii(nome_spec(k)));
            assert(tipo_lexema_de(nome_spec(k), minusculas_ascii(nome_spec(k))) == Some(k));
        },
        Tokens::Not => {
            assert(minusculas_ascii("Not"@) =~= "not"@);
            assert("not"@[0] != "and"@[0]);
            assert("not"@[0] != "asm"@[0]);
            assert("not"@[0] != "div"@[0]);
            assert("not"@[0] != "end"@[0]);
            assert("not"@[0] != "for"@[0]);
            assert("not"@[0] != "mod"@[0]);
            assert("not"@[1] != "nil"@[1]);
            assert(texto_ascii(nome_spec(k)));
            assert(tipo_lexema_de(nome_spec(k), minusculas_ascii(nome_spec(k))) == Some(k));
        },
        Tokens::Object => {
            assert(minusculas_ascii("Object"@) =~= "object"@);
            assert("object"@[0] != "downto"@[0]);
            assert("object"@[0] != "inline"@[0]);
            assert(texto_ascii(nome_spec(k)));
            assert(tipo_lexema_de(nome_spec(k), minusculas_ascii(nome_spec(k))) == Some(k));
        },
        Tokens::Of => {
            assert(minusculas_ascii("Of"@) =~= "of"@);
            assert("of"@[0] != "do"@[0]);
            assert("of"@[0] != "if"@[0]);
            assert("of"@[0] != "in"@[0]);
            assert(texto_ascii(nome_spec(k)));
            assert(tipo_lexema_de(nome_spec(k), minusculas_ascii(nome_spec(k))) == Some(k));
        },
        Tokens::Or => {
            assert(minusculas_ascii("Or"@) =~= "or"@);
            assert("or"@[0] != "do"@[0]);
            assert("or"@[0] != "if"@[0]);
            assert("or"@[0] != "in"@[0]);
            assert("or"@[1] != "of"@[1]);
            assert(texto_ascii(nome_spec(k)));
            assert(tipo_lexema_de(nome_spec(k), minusculas_ascii(nome_spec(k))) == Some(k));
        },
        Tokens::Packed => {
            assert(minusculas_ascii("Packed"@) =~= "packed"@);
            assert("packed"@[0] != "downto"@[0]);
            assert("packed"@[0] != "inline"@[0]);
            assert("packed"@[0] != "object"@[0]);
            assert(texto_ascii(nome_spec(k)));
            assert(tipo_lexema_de(nome_spec(k), minusculas_ascii(nome_spec(k))) == Some(k));
        },
        Tokens::Procedure => {
            assert(minusculas_ascii("Procedure"@) =~= "procedure"@);
            assert(texto_ascii(nome_spec(k)));
            assert(tipo_lexema_de(nome_spec(k), minusculas_ascii(nome_spec(k))) == Some(k));
        },
        Tokens::Program => {
            assert(minusculas_ascii("Program"@) =~= "program"@);
            assert("program"@[0] != "boolean"@[0]);
            assert("program"@[0] != "forward"@[0]);
            assert("program"@[0] != "integer"@[0]);
            assert(texto_ascii(nome_spec(k)));
            assert(tipo_lexema_de(nome_spec(k), minusculas_ascii(nome_spec(k))) == Some(k));
        },
        Tokens::Read => {
            assert(minusculas_ascii("Read"@) =~= "read"@);
            assert("read"@[0] != "case"@[0]);
            assert("read"@[0] != "char"@[0]);
            assert("read"@[0] != "else"@[0]);
            assert("read"@[0] != "file"@[0]);
            assert("read"@[0] != "goto"@[0]);
            assert(texto_ascii(nome_spec(k)));
            assert(tipo_lexema_de(nome_spec(k), minusculas_ascii(nome_spec(k))) == Some(k));
        },
        Tokens::Real => {
            assert(minusculas_ascii("Real"@) =~= "real"@);
            assert("real"@[0] != "case"@[0]);
            assert("real"@[0] != "char"@[0]);
            assert("real"@[0] != "else"@[0]);
            assert("real"@[0] != "file"@[0]);
            assert("real"@[0] != "goto"@[0]);
            assert("real"@[3] != "read"@[3]);
            assert(texto_ascii(nome_spec(k)));
            assert(tipo_lexema_de(nome_spec(k), minusculas_ascii(nome_spec(k))) == Some(k));
        },
        Tokens::Record => {
            assert(minusculas_ascii("Record"@) =~= "record"@);
            assert("record"@[0] != "downto"@[0]);
            assert("record"@[0] != "inline"@[0]);
            assert("record"@[0] != "object"@[0]);
            assert("record"@[0] != "packed"@[0]);
            assert(texto_ascii(nome_spec(k)));
            assert(tipo_lexema_de(nome_spec(k), minusculas_ascii(nome_spec(k))) == Some(k));
        },
        Tokens::Repeat => {
            assert(minusculas_ascii("Repeat"@) =~= "repeat"@);
            assert("repeat"@[0] != "downto"@[0]);
            assert("repeat"@[0] != "inline"@[0]);
            assert("repeat"@[0] != "object"@[0]);
            assert("repeat"@[0] != "packed"@[0]);
            assert("repeat"@[2] != "record"@[2]);
            assert(texto_ascii(nome_spec(k)));
            assert(tipo_lexema_de(nome_spec(k), minusculas_ascii(nome_spec(k))) == Some(k));
        },
        Tokens::ReservadaSet => {
            assert(minusculas_ascii("Set"@) =~= "set"@);
            assert("set"@[0] != "and"@[0]);
            assert("set"@[0] != "asm"@[0]);
            assert("set"@[0] != "div"@[0]);
            assert("set"@[0] != "end"@[0]);
            assert("set"@[0] != "for"@[0]);
            assert("set"@[0] != "mod"@[0]);
            assert("set"@[0] != "nil"@[0]);
            assert("set"@[0] != "not"@[0]);
            assert(texto_ascii(nome_spec(k)));
            assert(tipo_lexema_de(nome_spec(k), minusculas_ascii(nome_spec(k))) == Some(k));
        },
        Tokens::ReservadaString => {
            assert(minusculas_ascii("String"@) =~= "string"@);
            assert("string"@[0] != "downto"@[0]);
            assert("string"@[0] != "inline"@[0]);
            assert("string"@[0] != "object"@[0]);
            assert("string"@[0] != "packed"@[0]);
            assert("string"@[0] != "record"@[0]);
            assert("string"@[0] != "repeat"@[0]);
            assert(texto_ascii(nome_spec(k)));
            assert(tipo_lexema_de(nome_spec(k), minusculas_ascii(nome_spec(k))) == Some(k));
        },
        Tokens::Then => {
            assert(minusculas_ascii("Then"@) =~= "then"@);
            assert("then"@[0] != "case"@[0]);
            assert("then"@[0] != "char"@[0]);
            assert("then"@[0] != "else"@[0]);
            assert("then"@[0] != "file"@[0]);
            assert("then"@[0] != "goto"@[0]);
            assert("then"@[0] != "read"@[0]);
            assert("then"@[0] != "real"@[0]);
            assert(texto_ascii(nome_spec(k)));
            assert(tipo_lexema_de(nome_spec(k), minusculas_ascii(nome_spec(k))) == Some(k));
        },
        Tokens::To => {
            assert(minusculas_ascii("To"@) =~= "to"@);
            assert("to"@[0] != "do"@[0]);
            assert("to"@[0] != "if"@[0]);
            assert("to"@[0] != "in"@[0]);
            assert("to"@[0] != "of"@[0]);
            assert("to"@[0] != "or"@[0]);
            assert(texto_ascii(nome_spec(k)));
            assert(tipo_lexema_de(nome_spec(k), minusculas_ascii(nome_spec(k))) == Some(k));
        },
        Tokens::True => {
            assert(minusculas_ascii("True"@) =~= "true"@);
            assert("true"@[0] != "case"@[0]);
            assert("true"@[0] != "char"@[0]);
            assert("true"@[0] != "else"@[0]);
            assert("true"@[0] != "file"@[0]);
            assert("true"@[0] != "goto"@[0]);
            assert("true"@[0] != "read"@[0]);
            assert("true"@[0] != "real"@[0]);
            assert("true"@[1] != "then"@[1]);
            assert(texto_ascii(nome_spec(k)));
            assert(tipo_lexema_de(nome_spec(k), minusculas_ascii(nome_spec(k))) == Some(k));
        },
        Tokens::Type => {
            assert(minusculas_ascii("Type"@) =~= "type"@);
            assert("type"@[0] != "case"@[0]);
            assert("type"@[0] != "char"@[0]);
            assert("type"@[0] != "else"@[0]);
            assert("type"@[0] != "file"@[0]);
            assert("type"@[0] != "goto"@[0]);
            assert("type"@[0] != "read"@[0]);
            assert("type"@[0] != "real"@[0]);
            assert("type"@[1] != "then"@[1]);
            assert("type"@[1] != "true"@[1]);
            assert(texto_ascii(nome_spec(k)));
            assert(tipo_lexema_de(nome_spec(k), minusculas_ascii(nome_spec(k))) == Some(k));
        },
        Tokens::Until => {
            assert(minusculas_ascii("Until"@) =~= "until"@);
            assert("until"@[0] != "array"@[0]);
            assert("until"@[0] != "begin"@[0]);
            assert("until"@[0] != "const"@[0]);
            assert("until"@[0] != "false"@[0]);
            assert("until"@[0] != "label"@[0]);
            assert(texto_ascii(nome_spec(k)));
            assert(tipo_lexema_de(nome_spec(k), minusculas_ascii(nome_spec(k))) == Some(k));
        },
        Tokens::Var => {
            assert(minusculas_ascii("Var"@) =~= "var"@);
            assert("var"@[0] != "and"@[0]);
            assert("var"@[0] != "asm"@[0]);
            assert("var"@[0] != "div"@[0]);
            assert("var"@[0] != "end"@[0]);
            assert("var"@[0] != "for"@[0]);
            assert("var"@[0] != "mod"@[0]);
            assert("var"@[0] != "nil"@[0]);
            assert("var"@[0] != "not"@[0]);
            assert("var"@[0] != "set"@[0]);
            assert(texto_ascii(nome_spec(k)));
            assert(tipo_lexema_de(nome_spec(k), minusculas_ascii(nome_spec(k))) == Some(k));
        },
        Tokens::While => {
            assert(minusculas_ascii("While"@) =~= "while"@);
            assert("while"@[0] != "array"@[0]);
            assert("while"@[0] != "begin"@[0]);
            assert("while"@[0] != "const"@[0]);
            assert("while"@[0] != "false"@[0]);
            assert("while"@[0] != "label"@[0]);
            assert("while"@[0] != "until"@[0]);
            assert(texto_ascii(nome_spec(k)));
            assert(tipo_lexema_de(nome_spec(k), minusculas_ascii(nome_spec(k))) == Some(k));
        },
        Tokens::With => {
            assert(minusculas_ascii("With"@) =~= "with"@);
            assert("with"@[0] != "case"@[0]);
            assert("with"@[0] != "char"@[0]);
            assert("with"@[0] != "else"@[0]);
            assert("with"@[0] != "file"@[0]);
            assert("with"@[0] != "goto"@[0]);
            assert("with"@[0] != "read"@[0]);
            assert("with"@[0] != "real"@[0]);
            assert("with"@[0] != "then"@[0]);
            assert("with"@[0] != "true"@[0]);
            assert("with"@[0] != "type"@[0]);
            assert(texto_ascii(nome_spec(k)));
            assert(tipo_lexema_de(nome_spec(k), minusculas_ascii(nome_spec(k))) == Some(k));
        },
        Tokens::Write => {
            assert(minusculas_ascii("Write"@) =~= "write"@);
            assert("write"@[0] != "array"@[0]);
            assert("write"@[0] != "begin"@[0]);
            assert("write"@[0] != "const"@[0]);
            assert("write"@[0] != "false"@[0]);
            assert("write"@[0] != "label"@[0]);
            assert("write"@[0] != "until"@[0]);
            assert("write"@[1] != "while"@[1]);
            assert(texto_ascii(nome_spec(k)));
            assert(tipo_lexema_de(nome_spec(k), minusculas_ascii(nome_spec(k))) == Some(k));
        },
        Tokens::AbreParenteses => {
            assert(minusculas_ascii("("@) =~= "("@);
            assert(texto_ascii(nome_spec(k)));
            assert(tipo_lexema_de(nome_spec(k), minusculas_ascii(nome_spec(k))) == Some(k));
        },
        Tokens::FechaParenteses => {
            assert(minusculas_ascii(")"@) =~= ")"@);
            assert(texto_ascii(nome_spec(k)));
            assert(tipo_lexema_de(nome_spec(k), minusculas_ascii(nome_spec(k))) == Some(k));
        },
        Tokens::AbreColchete => {
            assert(minusculas_ascii("["@) =~= "["@);
            assert(texto_ascii(nome_spec(k)));
            assert(tipo_lexema_de(nome_spec(k), minusculas_ascii(nome_spec(k))) == Some(k));
        },
        Tokens::FechaColchete => {
            assert(minusculas_ascii("]"@) =~= "]"@);
            assert(texto_ascii(nome_spec(k)));
            assert(tipo_lexema_de(nome_spec(k), minusculas_ascii(nome_spec(k))) == Some(k));
        },
        Tokens::Ponto => {
            assert(minusculas_ascii("."@) =~= "."@);
            assert(texto_ascii(nome_spec(k)));
            assert(tipo_lexema_de(nome_spec(k), minusculas_ascii(nome_spec(k))) == Some(k));
        },
        Tokens::Virgula => {
            assert(minusculas_ascii(","@) =~= ","@);
            assert(texto_ascii(nome_spec(k)));
            assert(tipo_lexema_de(nome_spec(k), minusculas_ascii(nome_spec(k))) == Some(k));
        },
        Tokens::PontoVirgula => {
            assert(minusculas_ascii(";"@) =~= ";"@);
            assert(texto_ascii(nome_spec(k)));
            assert(tipo_lexema_de(nome_spec(k), minusculas_ascii(nome_spec(k))) == Some(k));
        },
        Tokens::DoisPontos => {
            assert(minusculas_ascii(":"@) =~= ":"@);
            assert(texto_ascii(nome_spec(k)));
            assert(tipo_lexema_de(nome_spec(k), minusculas_ascii(nome_spec(k))) == Some(k));
        },
        Tokens::Apostrofo => {
            assert(minusculas_ascii("\'"@) =~= "\'"@);
            assert(texto_ascii(nome_spec(k)));
            assert(tipo_lexema_de(nome_spec(k), minusculas_ascii(nome_spec(k))) == Some(k));
        },
        Tokens::Aspas => {
            assert(minusculas_ascii("\""@) =~= "\""@);
            assert(texto_ascii(nome_spec(k)));
            assert(tipo_lexema_de(nome_spec(k), minusculas_ascii(nome_spec(k))) == Some(k));
        },
        Tokens::Igual => {
            assert(minusculas_ascii("="@) =~= "="@);
            assert(texto_ascii(nome_spec(k)));
            assert(tipo_lexema_de(nome_spec(k), minusculas_ascii(nome_spec(k))) == Some(k));
        },
        Tokens::Menor => {
            assert(minusculas_ascii("<"@) =~= "<"@);
            assert(texto_ascii(nome_spec(k)));
            assert(tipo_lexema_de(nome_spec(k), minusculas_ascii(nome_spec(k))) == Some(k));
        },
        Tokens::Maior => {
            assert(minusculas_ascii(">"@) =~= ">"@);
            assert(texto_ascii(nome_spec(k)));
            assert(tipo_lexema_de(nome_spec(k), minusculas_ascii(nome_spec(k))) == Some(k));
        },
        Tokens::Mais => {
            assert(minusculas_ascii("+"@) =~= "+"@);
            assert(texto_ascii(nome_spec(k)));
            assert(tipo_lexema_de(nome_spec(k), minusculas_ascii(nome_spec(k))) == Some(k));
        },
        Tokens::Menos => {
            assert(minusculas_ascii("-"@) =~= "-"@);
            assert(texto_ascii(nome_spec(k)));
            assert(tipo_lexema_de(nome_spec(k), minusculas_ascii(nome_spec(k))) == Some(k));
        },
        Tokens::Multiplicacao => {
            assert(minusculas_ascii("*"@) =~= "*"@);
            assert(texto_ascii(nome_spec(k)));
            assert(tipo_lexema_de(nome_spec(k), minusculas_ascii(nome_spec(k))) == Some(k));
        },
        Tokens::Divisao => {
            assert(minusculas_ascii("/"@) =~= "/"@);
            assert(texto_ascii(nome_spec(k)));
            assert(tipo_lexema_de(nome_spec(k), minusculas_ascii(nome_spec(k))) == Some(k));
        },
        Tokens::Modulo => {
            assert(minusculas_ascii("%"@) =~= "%"@);
            assert(texto_ascii(nome_spec(k)));
            assert(tipo_lexema_de(nome_spec(k), minusculas_ascii(nome_spec(k))) == Some(k));
        },
        Tokens::Dolar => {
            assert(minusculas_ascii("$"@) =~= "$"@);
            assert(texto_ascii(nome_spec(k)));
            assert(tipo_lexema_de(nome_spec(k), minusculas_ascii(nome_spec(k))) == Some(k));
        },
        Tokens::EComercial => {
            assert(minusculas_ascii("&"@) =~= "&"@);
            assert(texto_ascii(nome_spec(k)));
            assert(tipo_lexema_de(nome_spec(k), minusculas_ascii(nome_spec(k))) == Some(k));
        },
        _ => {},
    }
}

} // verus!
