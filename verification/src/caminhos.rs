//! Path components: joining them the way `PathBuf::join` does on Unix, and
//! the folder and join of a Windows path, for the paths the installer and the
//! service write.

use vstd::prelude::*;

use crate::texto::{anexar, caracteres, texto_de, trecho};

verus! {

/// `base.join(parte)` with `/` as the separator: an absolute `parte`
/// replaces the base; otherwise a separator goes between them unless the base
/// is empty or already ends in one.
pub open spec fn juntado(base: Seq<char>, parte: Seq<char>) -> Seq<char> {
    if parte.len() > 0 && parte[0] == '/' {
        parte
    } else if base.len() == 0 || base.last() == '/' {
        base + parte
    } else {
        base + seq!['/'] + parte
    }
}

pub fn juntar_chars(base: &[char], parte: &[char]) -> (r: Vec<char>)
    ensures
        r@ == juntado(base@, parte@),
{
    let mut r: Vec<char> = Vec::new();
    if parte.len() > 0 && parte[0] == '/' {
        anexar(&mut r, parte);
        assert(r@ =~= parte@);
        return r;
    }
    anexar(&mut r, base);
    if !(base.len() == 0 || base[base.len() - 1] == '/') {
        r.push('/');
    }
    anexar(&mut r, parte);
    assert(r@ =~= juntado(base@, parte@));
    r
}

/// `base.join(parte)`.
pub fn juntar(base: &str, parte: &str) -> (r: String)
    ensures
        r@ == juntado(base@, parte@),
{
    let b = caracteres(base);
    let p = caracteres(parte);
    let r = juntar_chars(&b, &p);
    texto_de(&r)
}

// ---------------------------------------------------------------------------
// Windows paths
// ---------------------------------------------------------------------------

/// Both `\` and `/` separate components of a Windows path.
pub open spec fn separador(c: char) -> bool {
    c == '\\' || c == '/'
}

/// Length of the root of a Windows path: `C:\` (3), a bare drive `C:` (2), a
/// leading separator (1), or nothing (0).
pub open spec fn raiz(s: Seq<char>) -> int {
    if s.len() >= 3 && s[1] == ':' && separador(s[2]) {
        3
    } else if s.len() >= 2 && s[1] == ':' {
        2
    } else if s.len() >= 1 && separador(s[0]) {
        1
    } else {
        0
    }
}

/// End of `s[..ate]` once the separators that end it are dropped, never below
/// `de`.
pub open spec fn sem_separadores_finais(s: Seq<char>, de: int, ate: int) -> int
    decreases ate - de,
{
    if ate > de && separador(s[ate - 1]) {
        sem_separadores_finais(s, de, ate - 1)
    } else {
        ate
    }
}

/// Position of the last separator in `s[de..ate]`, or `-1`.
pub open spec fn ultimo_separador(s: Seq<char>, de: int, ate: int) -> int
    decreases ate - de,
{
    if ate <= de {
        -1
    } else if separador(s[ate - 1]) {
        ate - 1
    } else {
        ultimo_separador(s, de, ate - 1)
    }
}

/// `Path::parent` on Windows, for paths made of a drive or root and named
/// components: the path without its last component and the separators before
/// it, the root kept; `None` when nothing but the root is left.
pub open spec fn pasta(s: Seq<char>) -> Option<Seq<char>> {
    let r = raiz(s);
    let n = sem_separadores_finais(s, r, s.len() as int);
    if n <= r {
        None
    } else {
        let k = ultimo_separador(s, r, n);
        if k < 0 {
            Some(s.subrange(0, r))
        } else {
            Some(s.subrange(0, sem_separadores_finais(s, r, k)))
        }
    }
}

/// `s` without the separators that end it (`trim_end_matches(['\\', '/'])`).
pub open spec fn sem_separadores(s: Seq<char>) -> Seq<char> {
    s.subrange(0, sem_separadores_finais(s, 0, s.len() as int))
}

/// `base.join(parte)` on Windows for a relative `parte`: a `\` goes between
/// them unless the base is empty, a bare drive, or already ends in a
/// separator.
pub open spec fn juntado_windows(base: Seq<char>, parte: Seq<char>) -> Seq<char> {
    if base.len() == 0 || separador(base.last()) || (base.len() == 2 && base[1] == ':') {
        base + parte
    } else {
        base + seq!['\\'] + parte
    }
}

pub fn e_separador(c: char) -> (r: bool)
    ensures
        r == separador(c),
{
    c == '\\' || c == '/'
}

fn raiz_de(s: &[char]) -> (r: usize)
    ensures
        r as int == raiz(s@),
        r <= s@.len(),
{
    if s.len() >= 3 && s[1] == ':' && e_separador(s[2]) {
        3
    } else if s.len() >= 2 && s[1] == ':' {
        2
    } else if s.len() >= 1 && e_separador(s[0]) {
        1
    } else {
        0
    }
}

pub fn recuar_separadores(s: &[char], de: usize, ate: usize) -> (r: usize)
    requires
        de <= ate <= s@.len(),
    ensures
        r as int == sem_separadores_finais(s@, de as int, ate as int),
        de <= r <= ate,
{
    let mut k = ate;
    while k > de && e_separador(s[k - 1])
        invariant
            de <= k <= ate <= s@.len(),
            sem_separadores_finais(s@, de as int, ate as int) == sem_separadores_finais(
                s@,
                de as int,
                k as int,
            ),
        decreases k,
    {
        k = k - 1;
    }
    k
}

pub fn achar_separador(s: &[char], de: usize, ate: usize) -> (r: Option<usize>)
    requires
        de <= ate <= s@.len(),
    ensures
        r matches Some(k) ==> k as int == ultimo_separador(s@, de as int, ate as int) && de <= k
            < ate,
        r is None <==> ultimo_separador(s@, de as int, ate as int) < 0,
{
    let mut k = ate;
    while k > de && !e_separador(s[k - 1])
        invariant
            de <= k <= ate <= s@.len(),
            ultimo_separador(s@, de as int, ate as int) == ultimo_separador(
                s@,
                de as int,
                k as int,
            ),
        decreases k,
    {
        k = k - 1;
    }
    if k > de {
        Some(k - 1)
    } else {
        None
    }
}

/// The folder of the Windows path `s` (`Path::parent`).
pub fn pasta_de(s: &str) -> (r: Option<String>)
    ensures
        match pasta(s@) {
            Some(p) => r matches Some(t) && t@ == p,
            None => r is None,
        },
{
    let v = caracteres(s);
    let r = raiz_de(&v);
    let n = recuar_separadores(&v, r, v.len());
    if n <= r {
        return None;
    }
    match achar_separador(&v, r, n) {
        None => Some(texto_de(&trecho(&v, 0, r))),
        Some(k) => {
            let m = recuar_separadores(&v, r, k);
            Some(texto_de(&trecho(&v, 0, m)))
        },
    }
}

/// `s` without the separators that end it.
pub fn sem_separadores_de(s: &[char]) -> (r: Vec<char>)
    ensures
        r@ == sem_separadores(s@),
{
    let n = recuar_separadores(s, 0, s.len());
    trecho(s, 0, n)
}

/// `base.join(parte)` on Windows, for a relative `parte`.
pub fn juntar_windows(base: &str, parte: &str) -> (r: String)
    ensures
        r@ == juntado_windows(base@, parte@),
{
    let b = caracteres(base);
    let mut r = caracteres(base);
    if !(b.len() == 0 || e_separador(b[b.len() - 1]) || (b.len() == 2 && b[1] == ':')) {
        r.push('\\');
    }
    let p = caracteres(parte);
    anexar(&mut r, &p);
    assert(r@ =~= juntado_windows(base@, parte@));
    texto_de(&r)
}

/// The system whose path rules apply.
#[derive(Clone, Copy, PartialEq, Eq, Debug, Structural)]
pub enum Sistema {
    Unix,
    Windows,
}

/// `base.join(parte)` on `sistema`, for a relative `parte`.
pub open spec fn juntado_em(sistema: Sistema, base: Seq<char>, parte: Seq<char>) -> Seq<char> {
    match sistema {
        Sistema::Unix => juntado(base, parte),
        Sistema::Windows => juntado_windows(base, parte),
    }
}

/// `base.join(parte)` on `sistema`.
pub fn juntar_em(sistema: Sistema, base: &str, parte: &str) -> (r: String)
    ensures
        r@ == juntado_em(sistema, base@, parte@),
{
    match sistema {
        Sistema::Unix => juntar(base, parte),
        Sistema::Windows => juntar_windows(base, parte),
    }
}

} // verus!
