//! UTF-16 as the Windows APIs speak it: code units, surrogate pairs, and the
//! lossy decoding that turns a lone surrogate into U+FFFD.

use vstd::prelude::*;

verus! {

/// A Unicode scalar value: a code point that is not a surrogate.
pub open spec fn escalar(v: u32) -> bool {
    v < 0xD800 || (0xE000 <= v && v <= 0x10FFFF)
}

/// `char::from_u32`: the character whose scalar value is `i`, if there is one.
pub assume_specification[ core::char::from_u32 ](i: u32) -> (r: Option<char>)
    ensures
        escalar(i) ==> r == Some(i as char),
        !escalar(i) ==> r is None,
;

/// The code units of one character (`char::encode_utf16`).
pub open spec fn unidades(c: char) -> Seq<u16> {
    let v = c as u32;
    if v < 0x10000 {
        seq![v as u16]
    } else {
        seq![
            (0xD800 + (v - 0x10000) / 1024) as u16,
            (0xDC00 + (v - 0x10000) % 1024) as u16,
        ]
    }
}

/// `str::encode_utf16`, as a sequence.
pub open spec fn codificado(s: Seq<char>) -> Seq<u16>
    decreases s.len(),
{
    if s.len() == 0 {
        seq![]
    } else {
        codificado(s.drop_last()) + unidades(s.last())
    }
}

/// `String::from_utf16_lossy`: pairs of surrogates become one character,
/// and any lone surrogate becomes U+FFFD.
pub open spec fn decodificado(u: Seq<u16>) -> Seq<char>
    decreases u.len(),
{
    if u.len() == 0 {
        seq![]
    } else {
        let a = u[0];
        if a < 0xD800 || a > 0xDFFF {
            seq![(a as u32) as char] + decodificado(u.drop_first())
        } else if a <= 0xDBFF && u.len() >= 2 && 0xDC00 <= u[1] && u[1] <= 0xDFFF {
            seq![(0x10000 + (a - 0xD800) * 1024 + (u[1] - 0xDC00)) as u32 as char] + decodificado(
                u.subrange(2, u.len() as int),
            )
        } else {
            seq!['\u{FFFD}'] + decodificado(u.drop_first())
        }
    }
}

/// Every `char` is a scalar value.
pub proof fn lemma_char_escalar(c: char)
    ensures
        escalar(c as u32),
{
}

proof fn lemma_codificado_inicio(c: char, s: Seq<char>)
    ensures
        codificado(seq![c] + s) == unidades(c) + codificado(s),
    decreases s.len(),
{
    if s.len() == 0 {
        assert(seq![c] + s =~= seq![c]);
        assert(seq![c].drop_last() =~= Seq::<char>::empty());
        assert(codificado(seq![c]) =~= codificado(Seq::<char>::empty()) + unidades(c));
        assert(unidades(c) + codificado(s) =~= unidades(c));
    } else {
        lemma_codificado_inicio(c, s.drop_last());
        assert((seq![c] + s).drop_last() =~= seq![c] + s.drop_last());
        assert((seq![c] + s).last() == s.last());
        assert(unidades(c) + codificado(s.drop_last()) + unidades(s.last()) =~= unidades(c) + (
        codificado(s.drop_last()) + unidades(s.last())));
    }
}

/// Decoding what was encoded gives the text back.
pub proof fn lei_utf16_ida_e_volta(s: Seq<char>)
    ensures
        decodificado(codificado(s)) == s,
    decreases s.len(),
{
    if s.len() > 0 {
        let c = s[0];
        let resto = s.drop_first();
        assert(s =~= seq![c] + resto);
        lemma_codificado_inicio(c, resto);
        lei_utf16_ida_e_volta(resto);
        let u = unidades(c) + codificado(resto);
        let v = c as u32;
        lemma_char_escalar(c);
        if v < 0x10000 {
            assert(u[0] == v as u16);
            assert(u.drop_first() =~= codificado(resto));
            assert((v as u16) as u32 == v);
            vstd::utf8::char_u32_cast(c, v);
            assert(decodificado(u) == seq![((u[0] as u32) as char)] + decodificado(u.drop_first()));
        } else {
            let hi = (0xD800 + (v - 0x10000) / 1024) as u16;
            let lo = (0xDC00 + (v - 0x10000) % 1024) as u16;
            assert(0 <= (v - 0x10000) / 1024 < 1024) by (nonlinear_arith)
                requires
                    0x10000 <= v <= 0x10FFFF,
            ;
            assert(u[0] == hi);
            assert(u[1] == lo);
            assert(u.subrange(2, u.len() as int) =~= codificado(resto));
            assert(0x10000 + (hi - 0xD800) * 1024 + (lo - 0xDC00) == v) by (nonlinear_arith)
                requires
                    hi == 0xD800 + (v - 0x10000) / 1024,
                    lo == 0xDC00 + (v - 0x10000) % 1024,
                    0x10000 <= v,
            ;
            vstd::utf8::char_u32_cast(c, v);
            assert(hi <= 0xDBFF);
            assert(decodificado(u) == seq![(0x10000 + (u[0] - 0xD800) * 1024 + (u[1] - 0xDC00)) as u32 as char] + decodificado(u.subrange(2, u.len() as int)));
        }
        assert(decodificado(u) =~= seq![c] + resto);
    }
}

/// The UTF-16 code units of `s`.
pub fn codificar(s: &[char]) -> (r: Vec<u16>)
    ensures
        r@ == codificado(s@),
{
    let mut r: Vec<u16> = Vec::new();
    let mut i: usize = 0;
    while i < s.len()
        invariant
            i <= s@.len(),
            r@ == codificado(s@.subrange(0, i as int)),
        decreases s@.len() - i,
    {
        let c = s[i];
        let v = c as u32;
        if v < 0x10000 {
            r.push(v as u16);
        } else {
            proof {
                lemma_char_escalar(c);
            }
            r.push((0xD800 + (v - 0x10000) / 1024) as u16);
            r.push((0xDC00 + (v - 0x10000) % 1024) as u16);
        }
        assert(s@.subrange(0, i + 1).drop_last() =~= s@.subrange(0, i as int));
        assert(r@ =~= codificado(s@.subrange(0, i + 1)));
        i = i + 1;
    }
    assert(s@.subrange(0, s@.len() as int) =~= s@);
    r
}

/// The text of `u`, lone surrogates replaced by U+FFFD.
pub fn decodificar(u: &[u16]) -> (r: Vec<char>)
    ensures
        r@ == decodificado(u@),
{
    let mut r: Vec<char> = Vec::new();
    let mut i: usize = 0;
    assert(u@.subrange(0, u@.len() as int) =~= u@);
    assert(r@ + decodificado(u@) =~= decodificado(u@));
    while i < u.len()
        invariant
            i <= u@.len(),
            decodificado(u@) == r@ + decodificado(u@.subrange(i as int, u@.len() as int)),
        decreases u@.len() - i,
    {
        let ghost resto = u@.subrange(i as int, u@.len() as int);
        let a = u[i];
        if a < 0xD800 || a > 0xDFFF {
            let c = core::char::from_u32(a as u32);
            let c = match c {
                Some(c) => c,
                None => '\u{FFFD}',
            };
            assert(resto.drop_first() =~= u@.subrange(i + 1, u@.len() as int));
            assert(c == (a as u32) as char);
            assert(decodificado(resto) == seq![c] + decodificado(resto.drop_first()));
            let ghost antes = r@;
            r.push(c);
            assert(antes + (seq![c] + decodificado(resto.drop_first())) =~= r@ + decodificado(resto.drop_first()));
            i = i + 1;
        } else if a <= 0xDBFF && i + 1 < u.len() && 0xDC00 <= u[i + 1] && u[i + 1] <= 0xDFFF {
            let b = u[i + 1];
            let v: u32 = 0x10000 + ((a - 0xD800) as u32) * 1024 + ((b - 0xDC00) as u32);
            assert(escalar(v)) by (nonlinear_arith)
                requires
                    v == 0x10000 + ((a - 0xD800) as u32) * 1024 + ((b - 0xDC00) as u32),
                    0xD800 <= a <= 0xDBFF,
                    0xDC00 <= b <= 0xDFFF,
            ;
            let c = core::char::from_u32(v);
            let c = match c {
                Some(c) => c,
                None => '\u{FFFD}',
            };
            assert(resto[1] == b);
            assert(resto.subrange(2, resto.len() as int) =~= u@.subrange(i + 2, u@.len() as int));
            assert(c == v as char);
            assert(decodificado(resto) == seq![c] + decodificado(resto.subrange(2, resto.len() as int)));
            let ghost antes = r@;
            r.push(c);
            assert(antes + (seq![c] + decodificado(resto.subrange(2, resto.len() as int))) =~= r@ + decodificado(resto.subrange(2, resto.len() as int)));
            i = i + 2;
        } else {
            assert(resto.drop_first() =~= u@.subrange(i + 1, u@.len() as int));
            assert(decodificado(resto) == seq!['\u{FFFD}'] + decodificado(resto.drop_first()));
            let ghost antes = r@;
            r.push('\u{FFFD}');
            assert(antes + (seq!['\u{FFFD}'] + decodificado(resto.drop_first())) =~= r@ + decodificado(resto.drop_first()));
            i = i + 1;
        }
    }
    r
}

} // verus!
