//! Characters and strings: what the lexer and the code generator need of
//! them, each with its contract.
use vstd::prelude::*;

verus! {

/// What `char::is_alphanumeric` answers for a character (the Unicode
/// properties Alphabetic and Numeric).
pub uninterp spec fn alfanumerico(c: char) -> bool;

/// What `str::to_lowercase` gives for a text (the Unicode lowercase mapping).
pub uninterp spec fn minusculas(s: Seq<char>) -> Seq<char>;

/// Calls `char::is_alphanumeric`; the contract claims that the answer is
/// the one named by `alfanumerico` for that character and, for an ASCII
/// character, that it is true exactly for the letters `a` to `z` and `A` to
/// `Z` and the digits `0` to `9`. Of other characters it says nothing more.
#[verifier::external_body]
pub(crate) fn eh_alfanumerico(c: char) -> (r: bool)
    ensures
        r == alfanumerico(c),
        (c as u32) < 128 ==> (r <==> ('a' <= c <= 'z' || 'A' <= c <= 'Z' || '0' <= c <= '9')),
{
    c.is_alphanumeric()
}

/// A character lowered the ASCII way: `A` to `Z` become `a` to `z`, and
/// any other character stays.
pub open spec fn minuscula_ascii(c: char) -> char {
    if 'A' <= c <= 'Z' {
        ((c as u32) + 32) as char
    } else {
        c
    }
}

/// A text lowered the ASCII way, character by character.
pub open spec fn minusculas_ascii(s: Seq<char>) -> Seq<char> {
    s.map_values(|c: char| minuscula_ascii(c))
}

/// Whether every character of a text is ASCII.
pub open spec fn texto_ascii(s: Seq<char>) -> bool
    decreases s.len(),
{
    s.len() == 0 || ((s[0] as u32) < 128 && texto_ascii(s.drop_first()))
}

/// Calls `str::to_lowercase`; the contract claims that the result is the
/// text named by `minusculas` for the argument and, for ASCII text, that it
/// is the text with `A` to `Z` lowered to `a` to `z` and every other
/// character kept (the Unicode lowercase mapping of the ASCII characters).
/// Of other text it says nothing more.
#[verifier::external_body]
pub(crate) fn para_minusculas(s: &str) -> (r: String)
    ensures
        r@ == minusculas(s@),
        texto_ascii(s@) ==> r@ == minusculas_ascii(s@),
{
    s.to_lowercase()
}

/// Calls `String::push`, which appends one character to the string.
#[verifier::external_body]
pub(crate) fn empurra_char(s: &mut String, c: char)
    ensures
        final(s)@ == old(s)@.push(c),
{
    s.push(c)
}

/// Whether two texts hold the same characters.
pub fn mesmo_texto(a: &str, b: &str) -> (r: bool)
    ensures
        r == (a@ == b@),
{
    let n = a.unicode_len();
    let m = b.unicode_len();
    if n != m {
        return false;
    }
    let mut i: usize = 0;
    while i < n
        invariant
            n == a@.len(),
            m == b@.len(),
            n == m,
            i <= n,
            forall|k: int| 0 <= k < i ==> a@[k] == b@[k],
        decreases n - i,
    {
        if a.get_char(i) != b.get_char(i) {
            return false;
        }
        i = i + 1;
    }
    assert(a@ =~= b@);
    true
}

/// The characters of a text, in order.
pub fn caracteres(s: &str) -> (r: Vec<char>)
    ensures
        r@ == s@,
{
    let n = s.unicode_len();
    let mut r: Vec<char> = Vec::new();
    let mut i: usize = 0;
    while i < n
        invariant
            n == s@.len(),
            i <= n,
            r@ == s@.subrange(0, i as int),
        decreases n - i,
    {
        r.push(s.get_char(i));
        i = i + 1;
        assert(r@ =~= s@.subrange(0, i as int));
    }
    assert(s@.subrange(0, n as int) =~= s@);
    r
}

/// A decimal digit, `'0'` to `'9'`.
pub open spec fn eh_digito(c: char) -> bool {
    '0' <= c <= '9'
}

/// The number that a string of decimal digits writes.
pub open spec fn valor_digitos(s: Seq<char>) -> nat
    decreases s.len(),
{
    if s.len() == 0 {
        0
    } else {
        valor_digitos(s.drop_last()) * 10 + ((s.last() as nat) - ('0' as nat)) as nat
    }
}

/// Whether the text starts with a sign, `+` or `-`.
pub open spec fn tem_sinal(s: Seq<char>) -> bool {
    s.len() > 0 && (s[0] == '+' || s[0] == '-')
}

/// The text without its leading sign, if it has one.
pub open spec fn sem_sinal(s: Seq<char>) -> Seq<char> {
    if tem_sinal(s) { s.drop_first() } else { s }
}

/// Whether every character of the text is a decimal digit.
pub open spec fn so_digitos(d: Seq<char>) -> bool {
    forall|i: int| 0 <= i < d.len() ==> eh_digito(#[trigger] d[i])
}

/// The largest magnitude that an `i64` written with this sign can have.
pub open spec fn maximo_i64(s: Seq<char>) -> nat {
    if s.len() > 0 && s[0] == '-' { 0x8000_0000_0000_0000 } else { 0x7fff_ffff_ffff_ffff }
}

/// Whether `s` is the text of an `i64` as `i64::from_str` reads it: an
/// optional `+` or `-`, then one or more decimal digits, writing a value in
/// the range of `i64`.
pub open spec fn inteiro_i64(s: Seq<char>) -> bool {
    &&& sem_sinal(s).len() > 0
    &&& so_digitos(sem_sinal(s))
    &&& valor_digitos(sem_sinal(s)) <= maximo_i64(s)
}

proof fn lemma_valor_cresce(s: Seq<char>, i: int)
    requires
        0 <= i <= s.len(),
        forall|k: int| 0 <= k < s.len() ==> eh_digito(#[trigger] s[k]),
    ensures
        valor_digitos(s.subrange(0, i)) <= valor_digitos(s),
    decreases s.len() - i,
{
    if i < s.len() {
        lemma_valor_cresce(s, i + 1);
        assert(s.subrange(0, i + 1).drop_last() =~= s.subrange(0, i));
    } else {
        assert(s.subrange(0, i) =~= s);
    }
}

/// Whether the text reads as an `i64`, as `i64::from_str` decides it.
pub fn eh_inteiro_i64(s: &str) -> (r: bool)
    ensures
        r == inteiro_i64(s@),
{
    let c = caracteres(s);
    let n = c.len();
    if n == 0 {
        return false;
    }
    let com_sinal = c[0] == '+' || c[0] == '-';
    let negativo = c[0] == '-';
    let inicio: usize = if com_sinal { 1 } else { 0 };
    let limite: u128 = if negativo { 0x8000_0000_0000_0000 } else { 0x7fff_ffff_ffff_ffff };
    let ghost d = if com_sinal { s@.drop_first() } else { s@ };
    if inicio == n {
        return false;
    }
    assert(d =~= c@.subrange(inicio as int, n as int));
    assert(c@[0] == s@[0]);
    assert(com_sinal == (s@.len() > 0 && (s@[0] == '+' || s@[0] == '-')));
    assert(negativo == (s@.len() > 0 && s@[0] == '-'));
    assert(limite == if negativo { 0x8000_0000_0000_0000u128 } else { 0x7fff_ffff_ffff_ffffu128 });

    let mut v: u128 = 0;
    let mut i: usize = inicio;
    while i < n
        invariant
            c@ == s@,
            n == c@.len(),
            inicio <= i <= n,
            inicio < n,
            d == c@.subrange(inicio as int, n as int),
            limite <= 0x8000_0000_0000_0000,
            d == sem_sinal(s@),
            limite == maximo_i64(s@),
            forall|k: int| inicio <= k < i ==> eh_digito(#[trigger] c@[k]),
            v == valor_digitos(c@.subrange(inicio as int, i as int)),
            v <= limite,
        decreases n - i,
    {
        let ch = c[i];
        if !('0' <= ch && ch <= '9') {
            assert(d[i - inicio] == ch);
            assert(!eh_digito(d[i - inicio]));
            return false;
        }
        let dig: u128 = (ch as u32 - '0' as u32) as u128;
        let ghost antes = c@.subrange(inicio as int, i as int);
        assert(c@.subrange(inicio as int, i + 1).drop_last() =~= antes);
        let novo: u128 = v * 10 + dig;
        let ghost depois = c@.subrange(inicio as int, i + 1);
        assert(depois.last() == ch);
        assert(valor_digitos(depois) == valor_digitos(antes) * 10 + ((ch as nat) - ('0' as nat)) as nat);
        assert(novo == valor_digitos(depois));
        i = i + 1;
        if novo > limite {
            proof {
                if so_digitos(d) {
                    lemma_valor_cresce(d, i - inicio);
                    assert(d.subrange(0, i - inicio) =~= depois);
                }
            }
            return false;
        }
        v = novo;
    }
    assert(c@.subrange(inicio as int, n as int) =~= d);
    true
}

/// The decimal digits of a natural number, most significant first.
pub open spec fn digitos(n: nat) -> Seq<char>
    decreases n,
{
    if n < 10 {
        seq![(('0' as nat) + n) as char]
    } else {
        digitos(n / 10).push((('0' as nat) + n % 10) as char)
    }
}

/// The decimal text of an integer, as `ToString` writes it.
pub open spec fn decimal(n: int) -> Seq<char> {
    if n < 0 {
        seq!['-'] + digitos((-n) as nat)
    } else {
        digitos(n as nat)
    }
}

fn digitos_u64(n: u64) -> (r: String)
    ensures
        r@ == digitos(n as nat),
    decreases n,
{
    let d: u8 = (n % 10) as u8;
    let c: char = ('0' as u8 + d) as char;
    if n < 10 {
        let mut s = String::new();
        empurra_char(&mut s, c);
        assert(s@ =~= digitos(n as nat));
        s
    } else {
        let mut s = digitos_u64(n / 10);
        empurra_char(&mut s, c);
        s
    }
}

/// The decimal text of an `i32`.
pub fn texto_i32(n: i32) -> (r: String)
    ensures
        r@ == decimal(n as int),
{
    if n < 0 {
        let m: i64 = -(n as i64);
        let mut s = String::new();
        empurra_char(&mut s, '-');
        let d = digitos_u64(m as u64);
        s.append(d.as_str());
        assert(s@ =~= decimal(n as int));
        s
    } else {
        digitos_u64(n as u64)
    }
}

} // verus!
