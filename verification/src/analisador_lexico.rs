//! The first sketch of the lexer: an empty table of symbols and a test for
//! control characters.
use vstd::prelude::*;

verus! {

/// An empty table of symbols, with room for a thousand of them.
pub fn cria_tabela_de_simbolos() -> (v: Vec<String>)
    ensures
        v@.len() == 0,
{
    let v: Vec<String> = Vec::with_capacity(1000);
    v
}

/// Whether the character is one of the control characters `\x01` to `\x08`
/// or one of the last two code points, `\u{10FFFE}` and `\u{10FFFF}`.
pub fn match_char(data: &char) -> (r: bool)
    ensures
        r == (('\x01' <= *data && *data <= '\x08') || ('\u{10FFFE}' <= *data && *data <= '\u{10FFFF}')),
{
    match *data {
        '\x01'..='\x08' | '\u{10FFFE}'..='\u{10FFFF}' => true,
        _ => false,
    }
}

} // verus!
