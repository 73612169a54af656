use vstd::prelude::*;

verus! {

/// The kinds of token that the lexer recognises: the reserved words of
/// Pascal, identifiers and numbers, punctuation, relational and arithmetic
/// symbols, and `Comentario`, the kind of an empty token.
#[derive(Debug, Clone, Copy, PartialEq, Eq, Structural)]
pub enum Tokens {
    And,
    Array,
    Asm,
    Begin,
    Boolean,
    Case,
    Char,
    Const,
    Div,
    Do,
    Downto,
    Else,
    End,
    False,
    File,
    For,
    Forward,
    Function,
    Goto,
    If,
    In,
    Inline,
    Integer,
    Label,
    Mod,
    Nil,
    Not,
    Object,
    Of,
    Or,
    Packed,
    Procedure,
    Program,
    Read,
    Real,
    Record,
    Repeat,
    ReservadaSet,
    ReservadaString,
    Then,
    To,
    True,
    Type,
    Until,
    Var,
    While,
    With,
    Write,
    Identificador,
    Numero,
    AbreParenteses,
    FechaParenteses,
    AbreColchete,
    FechaColchete,
    Atribuicao,
    Ponto,
    Virgula,
    PontoVirgula,
    DoisPontos,
    Apostrofo,
    Aspas,
    Igual,
    Diferente,
    Menor,
    Maior,
    MenorIgual,
    MaiorIgual,
    Mais,
    Menos,
    Multiplicacao,
    Divisao,
    Modulo,
    Dolar,
    EComercial,
    FatorEscala,
    Comentario,
}

/// The printed name of each kind of token.
pub open spec fn nome_spec(t: Tokens) -> Seq<char> {
    match t {
        Tokens::And => "And"@,
        Tokens::Array => "Array"@,
        Tokens::Asm => "Asm"@,
        Tokens::Begin => "Begin"@,
        Tokens::Boolean => "Boolean"@,
        Tokens::Case => "Case"@,
        Tokens::Char => "Char"@,
        Tokens::Const => "Const"@,
        Tokens::Div => "Div"@,
        Tokens::Do => "Do"@,
        Tokens::Downto => "Downto"@,
        Tokens::Else => "Else"@,
        Tokens::End => "End"@,
        Tokens::False => "False"@,
        Tokens::File => "File"@,
        Tokens::For => "For"@,
        Tokens::Forward => "Forward"@,
        Tokens::Function => "Function"@,
        Tokens::Goto => "Goto"@,
        Tokens::If => "If"@,
        Tokens::In => "In"@,
        Tokens::Inline => "Inline"@,
        Tokens::Integer => "Integer"@,
        Tokens::Label => "Label"@,
        Tokens::Mod => "Mod"@,
        Tokens::Nil => "Nil"@,
        Tokens::Not => "Not"@,
        Tokens::Object => "Object"@,
        Tokens::Of => "Of"@,
        Tokens::Or => "Or"@,
        Tokens::Packed => "Packed"@,
        Tokens::Procedure => "Procedure"@,
        Tokens::Program => "Program"@,
        Tokens::Read => "Read"@,
        Tokens::Real => "Real"@,
        Tokens::Record => "Record"@,
        Tokens::Repeat => "Repeat"@,
        Tokens::ReservadaSet => "Set"@,
        Tokens::ReservadaString => "String"@,
        Tokens::Then => "Then"@,
        Tokens::To => "To"@,
        Tokens::True => "True"@,
        Tokens::Type => "Type"@,
        Tokens::Until => "Until"@,
        Tokens::Var => "Var"@,
        Tokens::While => "While"@,
        Tokens::With => "With"@,
        Tokens::Write => "Write"@,
        Tokens::Identificador => "Identificador"@,
        Tokens::Numero => "Numero"@,
        Tokens::AbreParenteses => "("@,
        Tokens::FechaParenteses => ")"@,
        Tokens::AbreColchete => "["@,
        Tokens::FechaColchete => "]"@,
        Tokens::Atribuicao => ":="@,
        Tokens::Ponto => "."@,
        Tokens::Virgula => ","@,
        Tokens::PontoVirgula => ";"@,
        Tokens::DoisPontos => ":"@,
        Tokens::Apostrofo => "\'"@,
        Tokens::Aspas => "\""@,
        Tokens::Igual => "="@,
        Tokens::Diferente => "<>"@,
        Tokens::Menor => "<"@,
        Tokens::Maior => ">"@,
        Tokens::MenorIgual => "<="@,
        Tokens::MaiorIgual => ">="@,
        Tokens::Mais => "+"@,
        Tokens::Menos => "-"@,
        Tokens::Multiplicacao => "*"@,
        Tokens::Divisao => "/"@,
        Tokens::Modulo => "%"@,
        Tokens::Dolar => "$"@,
        Tokens::EComercial => "&"@,
        Tokens::FatorEscala => "E ou e"@,
        Tokens::Comentario => ""@,
    }
}

impl Tokens {
    /// The printed name of the kind of token (what the program shows in its
    /// messages).
    pub fn nome(&self) -> (r: &'static str)
        ensures
            r@ == nome_spec(*self),
    {
        match *self {
            Tokens::And => "And",
            Tokens::Array => "Array",
            Tokens::Asm => "Asm",
            Tokens::Begin => "Begin",
            Tokens::Boolean => "Boolean",
            Tokens::Case => "Case",
            Tokens::Char => "Char",
            Tokens::Const => "Const",
            Tokens::Div => "Div",
            Tokens::Do => "Do",
            Tokens::Downto => "Downto",
            Tokens::Else => "Else",
            Tokens::End => "End",
            Tokens::False => "False",
            Tokens::File => "File",
            Tokens::For => "For",
            Tokens::Forward => "Forward",
            Tokens::Function => "Function",
            Tokens::Goto => "Goto",
            Tokens::If => "If",
            Tokens::In => "In",
            Tokens::Inline => "Inline",
            Tokens::Integer => "Integer",
            Tokens::Label => "Label",
            Tokens::Mod => "Mod",
            Tokens::Nil => "Nil",
            Tokens::Not => "Not",
            Tokens::Object => "Object",
            Tokens::Of => "Of",
            Tokens::Or => "Or",
            Tokens::Packed => "Packed",
            Tokens::Procedure => "Procedure",
            Tokens::Program => "Program",
            Tokens::Read => "Read",
            Tokens::Real => "Real",
            Tokens::Record => "Record",
            Tokens::Repeat => "Repeat",
            Tokens::ReservadaSet => "Set",
            Tokens::ReservadaString => "String",
            Tokens::Then => "Then",
            Tokens::To => "To",
            Tokens::True => "True",
            Tokens::Type => "Type",
            Tokens::Until => "Until",
            Tokens::Var => "Var",
            Tokens::While => "While",
            Tokens::With => "With",
            Tokens::Write => "Write",
            Tokens::Identificador => "Identificador",
            Tokens::Numero => "Numero",
            Tokens::AbreParenteses => "(",
            Tokens::FechaParenteses => ")",
            Tokens::AbreColchete => "[",
            Tokens::FechaColchete => "]",
            Tokens::Atribuicao => ":=",
            Tokens::Ponto => ".",
            Tokens::Virgula => ",",
            Tokens::PontoVirgula => ";",
            Tokens::DoisPontos => ":",
            Tokens::Apostrofo => "\'",
            Tokens::Aspas => "\"",
            Tokens::Igual => "=",
            Tokens::Diferente => "<>",
            Tokens::Menor => "<",
            Tokens::Maior => ">",
            Tokens::MenorIgual => "<=",
            Tokens::MaiorIgual => ">=",
            Tokens::Mais => "+",
            Tokens::Menos => "-",
            Tokens::Multiplicacao => "*",
            Tokens::Divisao => "/",
            Tokens::Modulo => "%",
            Tokens::Dolar => "$",
            Tokens::EComercial => "&",
            Tokens::FatorEscala => "E ou e",
            Tokens::Comentario => "",
        }
    }
}
/// A token of the source program: its text, its kind, and the line and
/// column where it stands (the lexer records the line and leaves the column
/// at zero).
#[derive(Debug, PartialEq, Clone)]
pub struct Token {
    pub tok: String,
    pub tipo: Tokens,
    pub lin: i32,
    pub col: i32,
}

/// The empty token: no text, kind `Comentario`, line and column zero.
pub open spec fn token_vazio(t: Token) -> bool {
    &&& t.tok@ == Seq::<char>::empty()
    &&& t.tipo == Tokens::Comentario
    &&& t.lin == 0
    &&& t.col == 0
}

impl Token {
    /// The empty token.
    pub fn new() -> (t: Token)
        ensures
            token_vazio(t),
    {
        Token { tok: String::new(), tipo: Tokens::Comentario, lin: 0, col: 0 }
    }

    /// A copy of the token, field by field.
    pub fn copia(&self) -> (t: Token)
        ensures
            t == *self,
    {
        Token { tok: self.tok.clone(), tipo: self.tipo, lin: self.lin, col: self.col }
    }
}

} // verus!
