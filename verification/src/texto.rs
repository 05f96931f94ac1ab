//! Text over sequences of characters: the small vocabulary that every parser
//! and formatter of the crate is written in.
//!
//! Executable functions work on `&[char]` and return `Vec<char>`; each one is
//! tied to a spec function over `Seq<char>`.

use vstd::prelude::*;

verus! {

// ---------------------------------------------------------------------------
// Conversion between `str`/`String` and characters
// ---------------------------------------------------------------------------

/// Appends one character to a `String` (std's `String::push`).
#[verifier::external_body]
pub fn empurrar(s: &mut String, c: char)
    ensures
        final(s)@ == old(s)@.push(c),
{
    s.push(c);
}

/// The characters of `s`, in order.
pub fn caracteres(s: &str) -> (v: Vec<char>)
    ensures
        v@ == s@,
{
    let mut v: Vec<char> = Vec::new();
    for c in it: s.chars()
        invariant
            v@ == it.seq().take(it.index() as int),
    {
        v.push(c);
    }
    v
}

/// A `String` holding exactly the characters of `v`.
pub fn texto_de(v: &[char]) -> (s: String)
    ensures
        s@ == v@,
{
    let mut s = String::new();
    let mut i: usize = 0;
    while i < v.len()
        invariant
            i <= v@.len(),
            s@ == v@.subrange(0, i as int),
        decreases v@.len() - i,
    {
        empurrar(&mut s, v[i]);
        assert(v@.subrange(0, i as int).push(v@[i as int]) =~= v@.subrange(0, i + 1));
        i = i + 1;
    }
    assert(v@.subrange(0, v@.len() as int) =~= v@);
    s
}

/// The characters `s[i..j]` as a new vector.
pub fn trecho(s: &[char], i: usize, j: usize) -> (v: Vec<char>)
    requires
        i <= j <= s@.len(),
    ensures
        v@ == s@.subrange(i as int, j as int),
{
    let mut v: Vec<char> = Vec::new();
    let mut k: usize = i;
    while k < j
        invariant
            i <= k <= j <= s@.len(),
            v@ == s@.subrange(i as int, k as int),
        decreases j - k,
    {
        v.push(s[k]);
        assert(s@.subrange(i as int, k as int).push(s@[k as int]) =~= s@.subrange(
            i as int,
            k + 1,
        ));
        k = k + 1;
    }
    v
}

/// A vector holding the elements of `s`.
pub fn copia<T: Copy>(s: &[T]) -> (v: Vec<T>)
    ensures
        v@ == s@,
{
    let mut v: Vec<T> = Vec::new();
    let mut k: usize = 0;
    while k < s.len()
        invariant
            k <= s@.len(),
            v@ == s@.subrange(0, k as int),
        decreases s@.len() - k,
    {
        v.push(s[k]);
        assert(s@.subrange(0, k as int).push(s@[k as int]) =~= s@.subrange(0, k + 1));
        k = k + 1;
    }
    assert(s@.subrange(0, s@.len() as int) =~= s@);
    v
}

/// Appends `b` to the end of `a`.
pub fn anexar(a: &mut Vec<char>, b: &[char])
    ensures
        final(a)@ == old(a)@ + b@,
{
    let mut k: usize = 0;
    while k < b.len()
        invariant
            k <= b@.len(),
            a@ == old(a)@ + b@.subrange(0, k as int),
        decreases b@.len() - k,
    {
        a.push(b[k]);
        assert(old(a)@ + b@.subrange(0, k + 1) =~= (old(a)@ + b@.subrange(0, k as int)).push(
            b@[k as int],
        ));
        k = k + 1;
    }
    assert(b@.subrange(0, b@.len() as int) =~= b@);
}

/// Appends the characters of `b` to the end of `a`.
pub fn anexar_str(a: &mut Vec<char>, b: &str)
    ensures
        final(a)@ == old(a)@ + b@,
{
    let v = caracteres(b);
    anexar(a, &v);
}

// ---------------------------------------------------------------------------
// Characters
// ---------------------------------------------------------------------------

/// ASCII lower case (`char::to_ascii_lowercase`).
pub open spec fn minuscula(c: char) -> char {
    if 'A' <= c && c <= 'Z' {
        ((c as u32) + 32) as char
    } else {
        c
    }
}

pub fn para_minuscula(c: char) -> (r: char)
    ensures
        r == minuscula(c),
{
    if 'A' <= c && c <= 'Z' {
        ((c as u8) + 32) as char
    } else {
        c
    }
}

/// ASCII letter or digit (`char::is_ascii_alphanumeric`).
pub open spec fn alfanumerico(c: char) -> bool {
    ('a' <= c && c <= 'z') || ('A' <= c && c <= 'Z') || ('0' <= c && c <= '9')
}

pub open spec fn digito(c: char) -> bool {
    '0' <= c && c <= '9'
}

/// Unicode `White_Space`, as `char::is_whitespace` decides it.
pub open spec fn espaco(c: char) -> bool {
    ||| c == ' '
    ||| ('\t' <= c && c <= '\r')
    ||| c == '\u{85}'
    ||| c == '\u{a0}'
    ||| c == '\u{1680}'
    ||| ('\u{2000}' <= c && c <= '\u{200a}')
    ||| c == '\u{2028}'
    ||| c == '\u{2029}'
    ||| c == '\u{202f}'
    ||| c == '\u{205f}'
    ||| c == '\u{3000}'
}

pub fn e_espaco(c: char) -> (r: bool)
    ensures
        r == espaco(c),
{
    c == ' ' || ('\t' <= c && c <= '\r') || c == '\u{85}' || c == '\u{a0}' || c == '\u{1680}'
        || ('\u{2000}' <= c && c <= '\u{200a}') || c == '\u{2028}' || c == '\u{2029}' || c
        == '\u{202f}' || c == '\u{205f}' || c == '\u{3000}'
}

// ---------------------------------------------------------------------------
// Whole sequences
// ---------------------------------------------------------------------------

pub open spec fn minusculas(s: Seq<char>) -> Seq<char> {
    s.map_values(|c: char| minuscula(c))
}

/// `eq_ignore_ascii_case`.
pub open spec fn iguais_sem_caixa(a: Seq<char>, b: Seq<char>) -> bool {
    minusculas(a) == minusculas(b)
}

pub open spec fn termina(s: Seq<char>, sufixo: Seq<char>) -> bool {
    sufixo.len() <= s.len() && s.subrange(s.len() - sufixo.len(), s.len() as int) == sufixo
}

pub open spec fn comeca(s: Seq<char>, prefixo: Seq<char>) -> bool {
    prefixo.len() <= s.len() && s.subrange(0, prefixo.len() as int) == prefixo
}

/// `s` holds `parte` somewhere, contiguously.
pub open spec fn contem(s: Seq<char>, parte: Seq<char>) -> bool {
    exists|i: int| 0 <= i <= s.len() - parte.len() && #[trigger] s.subrange(i, i + parte.len()) == parte
}

/// `trim_end_matches(c)` for one character.
pub open spec fn sem_final(s: Seq<char>, c: char) -> Seq<char>
    decreases s.len(),
{
    if s.len() > 0 && s.last() == c {
        sem_final(s.drop_last(), c)
    } else {
        s
    }
}

/// `trim_start`.
pub open spec fn apara_inicio(s: Seq<char>) -> Seq<char>
    decreases s.len(),
{
    if s.len() > 0 && espaco(s[0]) {
        apara_inicio(s.drop_first())
    } else {
        s
    }
}

/// `trim_end`.
pub open spec fn apara_fim(s: Seq<char>) -> Seq<char>
    decreases s.len(),
{
    if s.len() > 0 && espaco(s.last()) {
        apara_fim(s.drop_last())
    } else {
        s
    }
}

/// `trim`.
pub open spec fn apara(s: Seq<char>) -> Seq<char> {
    apara_fim(apara_inicio(s))
}

/// Index of the first `c` in `s`, or `s.len()` when there is none.
pub open spec fn indice(s: Seq<char>, c: char) -> int
    decreases s.len(),
{
    if s.len() == 0 {
        0
    } else if s[0] == c {
        0
    } else {
        1 + indice(s.drop_first(), c)
    }
}

/// Index of the last `c` in `s`, or `-1` when there is none.
pub open spec fn indice_final(s: Seq<char>, c: char) -> int
    decreases s.len(),
{
    if s.len() == 0 {
        -1
    } else if s.last() == c {
        s.len() - 1
    } else {
        indice_final(s.drop_last(), c)
    }
}

/// `split(c)`: the pieces between the separators, always at least one.
pub open spec fn partes(s: Seq<char>, c: char) -> Seq<Seq<char>>
    decreases s.len(),
{
    let i = indice(s, c);
    if i >= s.len() {
        seq![s]
    } else {
        proof {
            lemma_indice(s, c);
        }
        seq![s.subrange(0, i)] + partes(s.subrange(i + 1, s.len() as int), c)
    }
}

/// A line without its `"\r"` ending.
pub open spec fn sem_cr(l: Seq<char>) -> Seq<char> {
    if l.len() > 0 && l.last() == '\r' {
        l.drop_last()
    } else {
        l
    }
}

/// `lines()`: split at `'\n'`, a `'\r'` before the `'\n'` dropped, and no
/// empty last line after a final `'\n'`.
pub open spec fn linhas(s: Seq<char>) -> Seq<Seq<char>>
    decreases s.len(),
{
    if s.len() == 0 {
        seq![]
    } else {
        let i = indice(s, '\n');
        if i >= s.len() {
            seq![s]
        } else {
            proof {
                lemma_indice(s, '\n');
            }
            seq![sem_cr(s.subrange(0, i))] + linhas(s.subrange(i + 1, s.len() as int))
        }
    }
}

// ---------------------------------------------------------------------------
// Numbers
// ---------------------------------------------------------------------------

pub open spec fn valor_digito(c: char) -> nat {
    ((c as u32) - ('0' as u32)) as nat
}

pub open spec fn so_digitos(s: Seq<char>) -> bool {
    forall|i: int| 0 <= i < s.len() ==> digito(#[trigger] s[i])
}

/// Value of a run of decimal digits.
pub open spec fn valor(s: Seq<char>) -> nat
    decreases s.len(),
{
    if s.len() == 0 {
        0
    } else {
        valor(s.drop_last()) * 10 + valor_digito(s.last())
    }
}

pub open spec fn sem_mais(s: Seq<char>) -> Seq<char> {
    if s.len() > 0 && s[0] == '+' {
        s.drop_first()
    } else {
        s
    }
}

/// `str::parse` for an unsigned integer type whose largest value is `max`:
/// an optional `+`, then at least one decimal digit, and no overflow.
pub open spec fn numero(s: Seq<char>, max: nat) -> Option<nat> {
    let d = sem_mais(s);
    if d.len() > 0 && so_digitos(d) && valor(d) <= max {
        Some(valor(d))
    } else {
        None
    }
}

pub open spec fn caractere_digito(d: nat) -> char {
    (('0' as u32) + d) as char
}

/// Decimal text of `n`, without leading zeros.
pub open spec fn decimal(n: nat) -> Seq<char>
    decreases n,
{
    if n < 10 {
        seq![caractere_digito(n)]
    } else {
        decimal(n / 10).push(caractere_digito(n % 10))
    }
}

// ---------------------------------------------------------------------------
// Lemmas
// ---------------------------------------------------------------------------

pub proof fn lemma_indice(s: Seq<char>, c: char)
    ensures
        0 <= indice(s, c) <= s.len(),
        indice(s, c) < s.len() ==> s[indice(s, c)] == c,
        forall|j: int| 0 <= j < indice(s, c) ==> s[j] != c,
    decreases s.len(),
{
    if s.len() > 0 && s[0] != c {
        lemma_indice(s.drop_first(), c);
        assert forall|j: int| 0 <= j < indice(s, c) implies s[j] != c by {
            if j > 0 {
                assert(s[j] == s.drop_first()[j - 1]);
            }
        }
    }
}

/// The first `c` is found at `i` when none comes before it.
pub proof fn lemma_indice_em(s: Seq<char>, c: char, i: int)
    requires
        0 <= i <= s.len(),
        i < s.len() ==> s[i] == c,
        forall|j: int| 0 <= j < i ==> s[j] != c,
    ensures
        indice(s, c) == i,
    decreases s.len(),
{
    if s.len() > 0 && s[0] != c {
        assert forall|j: int| 0 <= j < i - 1 implies s.drop_first()[j] != c by {
            assert(s.drop_first()[j] == s[j + 1]);
        }
        lemma_indice_em(s.drop_first(), c, i - 1);
    }
}

pub proof fn lemma_indice_final(s: Seq<char>, c: char)
    ensures
        -1 <= indice_final(s, c) < s.len(),
        indice_final(s, c) >= 0 ==> s[indice_final(s, c)] == c,
        forall|j: int| indice_final(s, c) < j < s.len() ==> s[j] != c,
    decreases s.len(),
{
    if s.len() > 0 && s.last() != c {
        lemma_indice_final(s.drop_last(), c);
        assert forall|j: int| indice_final(s, c) < j < s.len() implies s[j] != c by {
            if j < s.len() - 1 {
                assert(s[j] == s.drop_last()[j]);
            }
        }
    }
}

pub proof fn lemma_indice_final_em(s: Seq<char>, c: char, i: int)
    requires
        -1 <= i < s.len(),
        i >= 0 ==> s[i] == c,
        forall|j: int| i < j < s.len() ==> s[j] != c,
    ensures
        indice_final(s, c) == i,
    decreases s.len(),
{
    if s.len() > 0 && s.last() != c {
        lemma_indice_final_em(s.drop_last(), c, i);
    }
}

pub proof fn lemma_sem_final_passo(s: Seq<char>, c: char, k: int)
    requires
        0 < k <= s.len(),
        s[k - 1] == c,
    ensures
        sem_final(s.subrange(0, k), c) == sem_final(s.subrange(0, k - 1), c),
{
    assert(s.subrange(0, k).drop_last() =~= s.subrange(0, k - 1));
}

pub proof fn lemma_apara_inicio_passo(s: Seq<char>, i: int)
    requires
        0 <= i < s.len(),
        espaco(s[i]),
    ensures
        apara_inicio(s.subrange(i, s.len() as int)) == apara_inicio(s.subrange(i + 1, s.len() as int)),
{
    assert(s.subrange(i, s.len() as int).drop_first() =~= s.subrange(i + 1, s.len() as int));
}

pub proof fn lemma_apara_fim_passo(s: Seq<char>, k: int)
    requires
        0 < k <= s.len(),
        espaco(s[k - 1]),
    ensures
        apara_fim(s.subrange(0, k)) == apara_fim(s.subrange(0, k - 1)),
{
    assert(s.subrange(0, k).drop_last() =~= s.subrange(0, k - 1));
}

pub proof fn lemma_valor_passo(s: Seq<char>, i: int)
    requires
        0 <= i < s.len(),
    ensures
        valor(s.subrange(0, i + 1)) == valor(s.subrange(0, i)) * 10 + valor_digito(s[i]),
{
    assert(s.subrange(0, i + 1).drop_last() =~= s.subrange(0, i));
}

/// A longer prefix of digits never has a smaller value.
pub proof fn lemma_valor_cresce(s: Seq<char>, i: int, j: int)
    requires
        0 <= i <= j <= s.len(),
    ensures
        valor(s.subrange(0, i)) <= valor(s.subrange(0, j)),
    decreases j - i,
{
    if i < j {
        lemma_valor_cresce(s, i, j - 1);
        lemma_valor_passo(s, j - 1);
    }
}

pub proof fn lemma_minusculas_iguais(a: Seq<char>, b: Seq<char>)
    ensures
        iguais_sem_caixa(a, b) <==> (a.len() == b.len() && forall|i: int|
            0 <= i < a.len() ==> minuscula(#[trigger] a[i]) == minuscula(b[i])),
{
    assert(minusculas(a).len() == a.len());
    assert(minusculas(b).len() == b.len());
    assert forall|i: int| 0 <= i < a.len() implies minusculas(a)[i] == minuscula(a[i]) by {}
    assert forall|i: int| 0 <= i < b.len() implies minusculas(b)[i] == minuscula(b[i]) by {}
    if a.len() == b.len() && forall|i: int|
        0 <= i < a.len() ==> minuscula(#[trigger] a[i]) == minuscula(b[i]) {
        assert(minusculas(a) =~= minusculas(b));
    }
    if iguais_sem_caixa(a, b) {
        assert forall|i: int| 0 <= i < a.len() implies minuscula(#[trigger] a[i]) == minuscula(
            b[i],
        ) by {
            assert(minusculas(a)[i] == minusculas(b)[i]);
        }
    }
}

// ---------------------------------------------------------------------------
// Executable counterparts
// ---------------------------------------------------------------------------

pub fn iguais(a: &[char], b: &[char]) -> (r: bool)
    ensures
        r == (a@ == b@),
{
    if a.len() != b.len() {
        return false;
    }
    let mut i: usize = 0;
    while i < a.len()
        invariant
            a@.len() == b@.len(),
            i <= a@.len(),
            forall|j: int| 0 <= j < i ==> a@[j] == b@[j],
        decreases a@.len() - i,
    {
        if a[i] != b[i] {
            return false;
        }
        i = i + 1;
    }
    assert(a@ =~= b@);
    true
}

/// `a` equals the text `b`.
pub fn iguais_str(a: &[char], b: &str) -> (r: bool)
    ensures
        r == (a@ == b@),
{
    let v = caracteres(b);
    iguais(a, &v)
}

pub fn minusculas_de(s: &[char]) -> (r: Vec<char>)
    ensures
        r@ == minusculas(s@),
{
    let mut r: Vec<char> = Vec::new();
    let mut i: usize = 0;
    while i < s.len()
        invariant
            i <= s@.len(),
            r@ == minusculas(s@.subrange(0, i as int)),
        decreases s@.len() - i,
    {
        let c = para_minuscula(s[i]);
        r.push(c);
        assert(minusculas(s@.subrange(0, i + 1)) =~= minusculas(s@.subrange(0, i as int)).push(c));
        i = i + 1;
    }
    assert(s@.subrange(0, s@.len() as int) =~= s@);
    r
}

pub fn iguais_ignorando_caixa(a: &[char], b: &[char]) -> (r: bool)
    ensures
        r == iguais_sem_caixa(a@, b@),
{
    proof {
        lemma_minusculas_iguais(a@, b@);
    }
    if a.len() != b.len() {
        return false;
    }
    let mut i: usize = 0;
    while i < a.len()
        invariant
            a@.len() == b@.len(),
            i <= a@.len(),
            forall|j: int| 0 <= j < i ==> minuscula(#[trigger] a@[j]) == minuscula(b@[j]),
        decreases a@.len() - i,
    {
        if para_minuscula(a[i]) != para_minuscula(b[i]) {
            assert(minuscula(a@[i as int]) != minuscula(b@[i as int]));
            proof {
                lemma_minusculas_iguais(a@, b@);
            }
            return false;
        }
        i = i + 1;
    }
    true
}

pub fn termina_com(s: &[char], sufixo: &[char]) -> (r: bool)
    ensures
        r == termina(s@, sufixo@),
{
    if sufixo.len() > s.len() {
        return false;
    }
    let n = s.len();
    let base = n - sufixo.len();
    let mut i: usize = 0;
    while i < sufixo.len()
        invariant
            n == s@.len(),
            sufixo@.len() <= s@.len(),
            base == s@.len() - sufixo@.len(),
            i <= sufixo@.len(),
            forall|j: int| 0 <= j < i ==> s@[base + j] == sufixo@[j],
        decreases sufixo@.len() - i,
    {
        if s[base + i] != sufixo[i] {
            assert(s@.subrange(base as int, s@.len() as int)[i as int] != sufixo@[i as int]);
            return false;
        }
        i = i + 1;
    }
    assert(s@.subrange(base as int, s@.len() as int) =~= sufixo@);
    true
}

pub fn comeca_com(s: &[char], prefixo: &[char]) -> (r: bool)
    ensures
        r == comeca(s@, prefixo@),
{
    if prefixo.len() > s.len() {
        return false;
    }
    let mut i: usize = 0;
    while i < prefixo.len()
        invariant
            prefixo@.len() <= s@.len(),
            i <= prefixo@.len(),
            forall|j: int| 0 <= j < i ==> s@[j] == prefixo@[j],
        decreases prefixo@.len() - i,
    {
        if s[i] != prefixo[i] {
            assert(s@.subrange(0, prefixo@.len() as int)[i as int] != prefixo@[i as int]);
            return false;
        }
        i = i + 1;
    }
    assert(s@.subrange(0, prefixo@.len() as int) =~= prefixo@);
    true
}

/// `s` holds `parte` starting at `i`.
pub fn casa_em(s: &[char], parte: &[char], i: usize) -> (r: bool)
    requires
        i + parte@.len() <= s@.len(),
    ensures
        r == (s@.subrange(i as int, i + parte@.len()) == parte@),
{
    let n = s.len();
    let mut k: usize = 0;
    while k < parte.len()
        invariant
            n == s@.len(),
            i + parte@.len() <= s@.len(),
            k <= parte@.len(),
            forall|j: int| 0 <= j < k ==> s@[i + j] == parte@[j],
        decreases parte@.len() - k,
    {
        if s[i + k] != parte[k] {
            assert(s@.subrange(i as int, i + parte@.len())[k as int] != parte@[k as int]);
            return false;
        }
        k = k + 1;
    }
    assert(s@.subrange(i as int, i + parte@.len()) =~= parte@);
    true
}

pub fn contem_trecho(s: &[char], parte: &[char]) -> (r: bool)
    ensures
        r == contem(s@, parte@),
{
    if parte.len() > s.len() {
        return false;
    }
    let ultimo = s.len() - parte.len();
    let mut i: usize = 0;
    loop
        invariant
            parte@.len() <= s@.len(),
            ultimo == s@.len() - parte@.len(),
            i <= ultimo,
            forall|j: int| 0 <= j < i ==> #[trigger] s@.subrange(j, j + parte@.len()) != parte@,
        decreases ultimo - i,
    {
        if casa_em(s, parte, i) {
            return true;
        }
        if i == ultimo {
            return false;
        }
        i = i + 1;
    }
}

/// `trim_end_matches(c)`.
pub fn sem_final_de(s: &[char], c: char) -> (r: Vec<char>)
    ensures
        r@ == sem_final(s@, c),
{
    let mut k: usize = s.len();
    assert(s@.subrange(0, k as int) =~= s@);
    while k > 0 && s[k - 1] == c
        invariant
            k <= s@.len(),
            sem_final(s@, c) == sem_final(s@.subrange(0, k as int), c),
        decreases k,
    {
        proof {
            lemma_sem_final_passo(s@, c, k as int);
        }
        k = k - 1;
    }
    trecho(s, 0, k)
}

/// Start and end of `trim()`: `s[i..j]` is the trimmed text.
pub fn limites_aparados(s: &[char]) -> (r: (usize, usize))
    ensures
        r.0 <= r.1 <= s@.len(),
        s@.subrange(r.0 as int, r.1 as int) == apara(s@),
        s@.subrange(r.0 as int, s@.len() as int) == apara_inicio(s@),
{
    let mut i: usize = 0;
    assert(s@.subrange(0, s@.len() as int) =~= s@);
    while i < s.len() && e_espaco(s[i])
        invariant
            i <= s@.len(),
            apara_inicio(s@) == apara_inicio(s@.subrange(i as int, s@.len() as int)),
        decreases s@.len() - i,
    {
        proof {
            lemma_apara_inicio_passo(s@, i as int);
        }
        i = i + 1;
    }
    let ghost t = s@.subrange(i as int, s@.len() as int);
    assert(apara_inicio(t) == t);
    let mut k: usize = s.len();
    assert(t.subrange(0, (k - i) as int) =~= t);
    while k > i && e_espaco(s[k - 1])
        invariant
            i <= k <= s@.len(),
            t == s@.subrange(i as int, s@.len() as int),
            apara_fim(t) == apara_fim(t.subrange(0, (k - i) as int)),
        decreases k,
    {
        proof {
            lemma_apara_fim_passo(t, (k - i) as int);
        }
        k = k - 1;
    }
    assert(t.subrange(0, (k - i) as int) =~= s@.subrange(i as int, k as int));
    (i, k)
}

/// `trim()`.
pub fn aparado(s: &[char]) -> (r: Vec<char>)
    ensures
        r@ == apara(s@),
{
    let (i, j) = limites_aparados(s);
    trecho(s, i, j)
}

/// `trim_start()`.
pub fn aparado_inicio(s: &[char]) -> (r: Vec<char>)
    ensures
        r@ == apara_inicio(s@),
{
    let (i, _j) = limites_aparados(s);
    trecho(s, i, s.len())
}

/// Position of the first `c`, or `s.len()`.
pub fn achar(s: &[char], c: char) -> (r: usize)
    ensures
        r == indice(s@, c),
        r <= s@.len(),
{
    let mut i: usize = 0;
    while i < s.len() && s[i] != c
        invariant
            i <= s@.len(),
            forall|j: int| 0 <= j < i ==> s@[j] != c,
        decreases s@.len() - i,
    {
        i = i + 1;
    }
    proof {
        lemma_indice_em(s@, c, i as int);
    }
    i
}

/// Position of the last `c`, if any.
pub fn achar_ultimo(s: &[char], c: char) -> (r: Option<usize>)
    ensures
        r matches Some(i) ==> i == indice_final(s@, c),
        r is None <==> indice_final(s@, c) == -1,
{
    let mut k: usize = s.len();
    while k > 0 && s[k - 1] != c
        invariant
            k <= s@.len(),
            forall|j: int| k <= j < s@.len() ==> s@[j] != c,
        decreases k,
    {
        k = k - 1;
    }
    if k == 0 {
        proof {
            lemma_indice_final_em(s@, c, -1);
        }
        None
    } else {
        proof {
            lemma_indice_final_em(s@, c, k - 1);
        }
        Some(k - 1)
    }
}

/// `split(c)`, each piece as a vector.
pub fn dividir(s: &[char], c: char) -> (r: Vec<Vec<char>>)
    ensures
        r@.len() == partes(s@, c).len(),
        forall|k: int| 0 <= k < r@.len() ==> #[trigger] r@[k]@ == partes(s@, c)[k],
{
    let mut r: Vec<Vec<char>> = Vec::new();
    let mut inicio: usize = 0;
    assert(s@.subrange(0, s@.len() as int) =~= s@);
    loop
        invariant
            inicio <= s@.len(),
            r@.len() + partes(s@.subrange(inicio as int, s@.len() as int), c).len() == partes(
                s@,
                c,
            ).len(),
            forall|k: int| 0 <= k < r@.len() ==> #[trigger] r@[k]@ == partes(s@, c)[k],
            forall|k: int|
                0 <= k < partes(s@.subrange(inicio as int, s@.len() as int), c).len() ==> partes(
                    s@,
                    c,
                )[r@.len() + k] == #[trigger] partes(s@.subrange(inicio as int, s@.len() as int), c)[k],
        decreases s@.len() - inicio,
    {
        let ghost resto = s@.subrange(inicio as int, s@.len() as int);
        let resto_v = trecho(s, inicio, s.len());
        let i = achar(&resto_v, c);
        proof {
            lemma_indice(resto, c);
        }
        if i >= resto_v.len() {
            let ghost antes = r@;
            r.push(resto_v);
            assert(partes(resto, c) == seq![resto]);
            assert forall|k: int| 0 <= k < r@.len() implies #[trigger] r@[k]@ == partes(s@, c)[k] by {
                if k < antes.len() {
                    assert(r@[k] == antes[k]);
                } else {
                    assert(partes(s@, c)[antes.len() as int] == partes(resto, c)[0]);
                }
            }
            return r;
        }
        let peca = trecho(&resto_v, 0, i);
        let ghost antes = r@;
        let ghost novo = resto.subrange(i + 1, resto.len() as int);
        assert(partes(resto, c) == seq![resto.subrange(0, i as int)] + partes(novo, c));
        assert(novo =~= s@.subrange(inicio + i + 1, s@.len() as int));
        r.push(peca);
        assert forall|k: int| 0 <= k < r@.len() implies #[trigger] r@[k]@ == partes(s@, c)[k] by {
            if k < antes.len() {
                assert(r@[k] == antes[k]);
            } else {
                assert(partes(s@, c)[antes.len() as int] == partes(resto, c)[0]);
            }
        }
        assert forall|k: int| 0 <= k < partes(novo, c).len() implies partes(s@, c)[r@.len() + k]
            == #[trigger] partes(novo, c)[k] by {
            assert(partes(resto, c)[k + 1] == partes(novo, c)[k]);
        }
        inicio = inicio + i + 1;
    }
}

/// `lines()`, each line as a vector.
pub fn dividir_linhas(s: &[char]) -> (r: Vec<Vec<char>>)
    ensures
        r@.len() == linhas(s@).len(),
        forall|k: int| 0 <= k < r@.len() ==> #[trigger] r@[k]@ == linhas(s@)[k],
{
    let mut r: Vec<Vec<char>> = Vec::new();
    let mut inicio: usize = 0;
    assert(s@.subrange(0, s@.len() as int) =~= s@);
    loop
        invariant
            inicio <= s@.len(),
            r@.len() + linhas(s@.subrange(inicio as int, s@.len() as int)).len() == linhas(
                s@,
            ).len(),
            forall|k: int| 0 <= k < r@.len() ==> #[trigger] r@[k]@ == linhas(s@)[k],
            forall|k: int|
                0 <= k < linhas(s@.subrange(inicio as int, s@.len() as int)).len() ==> linhas(
                    s@,
                )[r@.len() + k] == #[trigger] linhas(s@.subrange(inicio as int, s@.len() as int))[k],
        decreases s@.len() - inicio,
    {
        let ghost resto = s@.subrange(inicio as int, s@.len() as int);
        if inicio == s.len() {
            assert(linhas(resto).len() == 0);
            return r;
        }
        let resto_v = trecho(s, inicio, s.len());
        let i = achar(&resto_v, '\n');
        proof {
            lemma_indice(resto, '\n');
        }
        let ghost antes = r@;
        if i >= resto_v.len() {
            r.push(resto_v);
            assert(linhas(resto) == seq![resto]);
            assert forall|k: int| 0 <= k < r@.len() implies #[trigger] r@[k]@ == linhas(s@)[k] by {
                if k < antes.len() {
                    assert(r@[k] == antes[k]);
                } else {
                    assert(linhas(s@)[antes.len() as int] == linhas(resto)[0]);
                }
            }
            return r;
        }
        let mut fim = i;
        if fim > 0 && resto_v[fim - 1] == '\r' {
            fim = fim - 1;
        }
        let linha = trecho(&resto_v, 0, fim);
        let ghost novo = resto.subrange(i + 1, resto.len() as int);
        assert(linha@ == sem_cr(resto.subrange(0, i as int))) by {
            if i > 0 && resto[i - 1] == '\r' {
                assert(resto.subrange(0, i as int).drop_last() =~= resto.subrange(0, i - 1));
            }
        }
        assert(linhas(resto) == seq![sem_cr(resto.subrange(0, i as int))] + linhas(novo));
        assert(novo =~= s@.subrange(inicio + i + 1, s@.len() as int));
        r.push(linha);
        assert forall|k: int| 0 <= k < r@.len() implies #[trigger] r@[k]@ == linhas(s@)[k] by {
            if k < antes.len() {
                assert(r@[k] == antes[k]);
            } else {
                assert(linhas(s@)[antes.len() as int] == linhas(resto)[0]);
            }
        }
        assert forall|k: int| 0 <= k < linhas(novo).len() implies linhas(s@)[r@.len() + k]
            == #[trigger] linhas(novo)[k] by {
            assert(linhas(resto)[k + 1] == linhas(novo)[k]);
        }
        inicio = inicio + i + 1;
    }
}

/// Parses an unsigned number no larger than `max` the way `str::parse` does.
pub fn ler_numero(s: &[char], max: u64) -> (r: Option<u64>)
    ensures
        r matches Some(v) ==> numero(s@, max as nat) == Some(v as nat),
        r is None <==> numero(s@, max as nat) is None,
{
    let mut inicio: usize = 0;
    if s.len() > 0 && s[0] == '+' {
        inicio = 1;
    }
    let ghost d = sem_mais(s@);
    assert(d =~= s@.subrange(inicio as int, s@.len() as int));
    if inicio >= s.len() {
        return None;
    }
    let mut acc: u64 = 0;
    let mut i: usize = inicio;
    assert(d.subrange(0, 0) =~= Seq::<char>::empty());
    while i < s.len()
        invariant
            inicio <= i <= s@.len(),
            d == sem_mais(s@),
            d == s@.subrange(inicio as int, s@.len() as int),
            acc as nat == valor(d.subrange(0, i - inicio)),
            acc <= max,
            so_digitos(d.subrange(0, i - inicio)),
        decreases s@.len() - i,
    {
        let c = s[i];
        proof {
            lemma_valor_passo(d, i - inicio);
        }
        assert(d[i - inicio] == c);
        if !('0' <= c && c <= '9') {
            assert(!digito(d[i - inicio]));
            assert(!so_digitos(d));
            return None;
        }
        let dig: u64 = ((c as u32) - ('0' as u32)) as u64;
        if dig > max || acc > (max - dig) / 10 {
            assert(acc * 10 + dig > max) by (nonlinear_arith)
                requires
                    dig > max || acc > (max - dig) / 10,
            ;
            proof {
                assert(valor_digito(d[i - inicio]) == dig);
                assert(valor(d.subrange(0, i - inicio + 1)) > max);
                lemma_valor_cresce(d, i - inicio + 1, d.len() as int);
                assert(d.subrange(0, d.len() as int) =~= d);
            }
            return None;
        }
        assert(acc * 10 + dig <= max) by (nonlinear_arith)
            requires
                acc <= (max - dig) / 10,
                dig <= 9,
        ;
        acc = acc * 10 + dig;
        assert(so_digitos(d.subrange(0, i - inicio + 1))) by {
            assert forall|j: int| 0 <= j < i - inicio + 1 implies digito(
                #[trigger] d.subrange(0, i - inicio + 1)[j],
            ) by {
                if j < i - inicio {
                    assert(d.subrange(0, i - inicio + 1)[j] == d.subrange(0, i - inicio)[j]);
                }
            }
        }
        i = i + 1;
    }
    assert(d.subrange(0, d.len() as int) =~= d);
    Some(acc)
}

/// Appends the decimal text of `n` to `saida`.
pub fn escrever_decimal(n: u64, saida: &mut Vec<char>)
    ensures
        final(saida)@ == old(saida)@ + decimal(n as nat),
    decreases n,
{
    if n >= 10 {
        escrever_decimal(n / 10, saida);
    }
    let d = (n % 10) as u8;
    let c = ((d + 48) as char);
    assert(c == caractere_digito((n % 10) as nat));
    saida.push(c);
    proof {
        if n >= 10 {
            assert(decimal(n as nat) == decimal((n / 10) as nat).push(caractere_digito((n % 10) as nat)));
        } else {
            assert(decimal(n as nat) == seq![caractere_digito(n as nat)]);
        }
    }
}

/// The decimal text of `n`.
pub fn decimal_de(n: u64) -> (r: Vec<char>)
    ensures
        r@ == decimal(n as nat),
{
    let mut r: Vec<char> = Vec::new();
    escrever_decimal(n, &mut r);
    r
}


/// A digit written by `decimal` reads back as itself.
pub proof fn lemma_caractere_digito(d: nat)
    requires
        d < 10,
    ensures
        digito(caractere_digito(d)),
        valor_digito(caractere_digito(d)) == d,
        !espaco(caractere_digito(d)),
        caractere_digito(d) != '+',
{
    let u: u32 = (48 + d) as u32;
    assert(('0' as u32) == 48);
    assert((u as char) as u32 == u) by {
        assert(0 <= u < 0xD800);
    }
}

/// `decimal` writes digits only, and they read back as the number.
pub proof fn lemma_decimal(n: nat)
    ensures
        decimal(n).len() > 0,
        so_digitos(decimal(n)),
        valor(decimal(n)) == n,
        !espaco(decimal(n)[0]),
        decimal(n)[0] != '+',
        !espaco(decimal(n).last()),
    decreases n,
{
    lemma_caractere_digito(n % 10);
    if n >= 10 {
        lemma_decimal(n / 10);
        let d = decimal(n);
        assert(d == decimal(n / 10).push(caractere_digito(n % 10)));
        assert(d.drop_last() =~= decimal(n / 10));
        assert forall|i: int| 0 <= i < d.len() implies digito(#[trigger] d[i]) by {
            if i < d.len() - 1 {
                assert(d[i] == decimal(n / 10)[i]);
            }
        }
        assert(d[0] == decimal(n / 10)[0]);
        assert(d.last() == caractere_digito(n % 10));
        assert(valor(d) == valor(decimal(n / 10)) * 10 + valor_digito(d.last()));
        assert((n / 10) * 10 + n % 10 == n) by (nonlinear_arith);
    } else {
        assert(n % 10 == n);
        assert(decimal(n) == seq![caractere_digito(n)]);
        assert(decimal(n).drop_last() =~= Seq::<char>::empty());
        assert(valor(decimal(n)) == valor(decimal(n).drop_last()) * 10 + valor_digito(
            decimal(n).last(),
        ));
        assert(valor(Seq::<char>::empty()) == 0);
    }
}

} // verus!
