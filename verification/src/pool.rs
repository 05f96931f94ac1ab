//! The pool of public SOCKS5 proxies, with self-healing.
//!
//! Candidates come from public lists; each is validated against Discord
//! itself, and the healthy ones are kept ordered by latency. One that fails
//! in use is demoted; two failures and it leaves the queue. The downloads,
//! the probes and the waiting are the caller's; this module holds the queue
//! and the decisions.

use vstd::prelude::*;

use crate::texto::{
    achar_ultimo, apara, aparado, caracteres, dividir, dividir_linhas, iguais, iguais_str,
    anexar_str, decimal, escrever_decimal, indice_final, linhas, numero, ler_numero, partes,
    texto_de, trecho,
};

verus! {

/// Fewer than this and the pool is thin: the maintenance refills it, and a
/// failure that leaves it this thin wakes the maintenance early.
pub const MINIMO_SAUDAVEIS: usize = 3;

/// How many healthy proxies a refill aims for.
pub const ALVO_SAUDAVEIS: usize = 5;

/// A refill stops validating once it has found this many.
pub const ALVO_VALIDADOS: usize = 15;

#[derive(Clone, Debug)]
pub struct Upstream {
    pub endereco: String,
    /// Round-trip time of the validation probe, in nanoseconds.
    pub latencia_ns: u64,
    pub regiao: String,
    falhas: u32,
}

pub open spec fn linha_proxy_de(endereco: Seq<char>, regiao: Seq<char>, ms: nat) -> Seq<char> {
    "  "@ + endereco + " ("@ + regiao + ") "@ + decimal(ms) + "ms"@
}

/// An upstream as values.
pub ghost struct UpstreamV {
    pub endereco: Seq<char>,
    pub latencia: nat,
    pub regiao: Seq<char>,
    pub falhas: nat,
}

impl Upstream {
    pub closed spec fn view(&self) -> UpstreamV {
        UpstreamV {
            endereco: self.endereco@,
            latencia: self.latencia_ns as nat,
            regiao: self.regiao@,
            falhas: self.falhas as nat,
        }
    }

    /// A freshly validated upstream, with no failures.
    pub fn novo(endereco: String, latencia_ns: u64, regiao: String) -> (u: Upstream)
        ensures
            u@ == (UpstreamV {
                endereco: endereco@,
                latencia: latencia_ns as nat,
                regiao: regiao@,
                falhas: 0,
            }),
    {
        Upstream { endereco, latencia_ns, regiao, falhas: 0 }
    }

    /// The line that lists it in the log after a refill: its address, its
    /// region and its latency in whole milliseconds.
    pub fn linha_de_log(&self) -> (r: String)
        ensures
            r@ == linha_proxy_de(self@.endereco, self@.regiao, self@.latencia / 1_000_000),
    {
        let mut v = caracteres("  ");
        anexar_str(&mut v, self.endereco.as_str());
        anexar_str(&mut v, " (");
        anexar_str(&mut v, self.regiao.as_str());
        anexar_str(&mut v, ") ");
        escrever_decimal(self.latencia_ns / 1_000_000, &mut v);
        anexar_str(&mut v, "ms");
        texto_de(&v)
    }

    /// Failures seen in use since it entered the pool.
    pub fn falhas(&self) -> (r: u32)
        ensures
            r as nat == self@.falhas,
    {
        self.falhas
    }

    /// An identical copy.
    pub fn copiar(&self) -> (u: Upstream)
        ensures
            u@ == self@,
    {
        Upstream {
            endereco: self.endereco.clone(),
            latencia_ns: self.latencia_ns,
            regiao: self.regiao.clone(),
            falhas: self.falhas,
        }
    }
}

pub open spec fn vistas(s: Seq<Upstream>) -> Seq<UpstreamV> {
    s.map_values(|u: Upstream| u@)
}

// ---------------------------------------------------------------------------
// Ordering by latency
// ---------------------------------------------------------------------------

/// Index before which `x` goes in `t`: after every entry no slower than it.
pub open spec fn lugar(t: Seq<UpstreamV>, x: UpstreamV) -> int
    decreases t.len(),
{
    if t.len() == 0 {
        0
    } else if t[0].latencia > x.latencia {
        0
    } else {
        1 + lugar(t.drop_first(), x)
    }
}

pub open spec fn inserido(t: Seq<UpstreamV>, x: UpstreamV) -> Seq<UpstreamV> {
    t.subrange(0, lugar(t, x)).push(x) + t.subrange(lugar(t, x), t.len() as int)
}

/// `sort_by_key(latency)`: a stable sort, as an insertion sort.
pub open spec fn ordenado(s: Seq<UpstreamV>) -> Seq<UpstreamV>
    decreases s.len(),
{
    if s.len() == 0 {
        seq![]
    } else {
        inserido(ordenado(s.drop_last()), s.last())
    }
}

pub open spec fn por_latencia(s: Seq<UpstreamV>) -> bool {
    forall|i: int, j: int| 0 <= i <= j < s.len() ==> s[i].latencia <= s[j].latencia
}

proof fn lemma_lugar(t: Seq<UpstreamV>, x: UpstreamV)
    ensures
        0 <= lugar(t, x) <= t.len(),
        forall|j: int| 0 <= j < lugar(t, x) ==> t[j].latencia <= x.latencia,
        lugar(t, x) < t.len() ==> t[lugar(t, x)].latencia > x.latencia,
    decreases t.len(),
{
    if t.len() > 0 && t[0].latencia <= x.latencia {
        lemma_lugar(t.drop_first(), x);
        assert forall|j: int| 0 <= j < lugar(t, x) implies t[j].latencia <= x.latencia by {
            if j > 0 {
                assert(t[j] == t.drop_first()[j - 1]);
            }
        }
    }
}

proof fn lemma_lugar_em(t: Seq<UpstreamV>, x: UpstreamV, k: int)
    requires
        0 <= k <= t.len(),
        forall|j: int| 0 <= j < k ==> t[j].latencia <= x.latencia,
        k < t.len() ==> t[k].latencia > x.latencia,
    ensures
        lugar(t, x) == k,
    decreases t.len(),
{
    if t.len() > 0 && t[0].latencia <= x.latencia {
        assert forall|j: int| 0 <= j < k - 1 implies t.drop_first()[j].latencia <= x.latencia by {
            assert(t.drop_first()[j] == t[j + 1]);
        }
        lemma_lugar_em(t.drop_first(), x, k - 1);
    }
}

proof fn lemma_inserido(t: Seq<UpstreamV>, x: UpstreamV)
    requires
        por_latencia(t),
    ensures
        por_latencia(inserido(t, x)),
        inserido(t, x).to_multiset() == t.to_multiset().insert(x),
{
    lemma_lugar(t, x);
    let k = lugar(t, x);
    let r = inserido(t, x);
    assert(r.len() == t.len() + 1);
    assert forall|i: int, j: int| 0 <= i <= j < r.len() implies r[i].latencia <= r[j].latencia by {
        if j < k {
            assert(r[i] == t[i] && r[j] == t[j]);
        } else if j == k {
            if i < k {
                assert(r[i] == t[i]);
            }
        } else {
            assert(r[j] == t[j - 1]);
            if i < k {
                assert(r[i] == t[i]);
            } else if i > k {
                assert(r[i] == t[i - 1]);
            }
        }
    }
    assert(r.remove(k) =~= t);
    assert(r[k] == x);
    r.to_multiset_ensures();
    assert(r.remove(k).to_multiset() =~= r.to_multiset().remove(x));
    assert(r.contains(x));
    assert(r.to_multiset().count(x) > 0);
    assert(r.to_multiset() =~= t.to_multiset().insert(x));
}

/// Sorting by latency gives a sequence ordered by latency, with the same
/// entries as before.
pub proof fn lei_ordenado(s: Seq<UpstreamV>)
    ensures
        por_latencia(ordenado(s)),
        ordenado(s).to_multiset() == s.to_multiset(),
    decreases s.len(),
{
    if s.len() > 0 {
        lei_ordenado(s.drop_last());
        lemma_inserido(ordenado(s.drop_last()), s.last());
        assert(s =~= s.drop_last().push(s.last()));
        s.drop_last().to_multiset_ensures();
    } else {
        assert(ordenado(s) =~= s);
    }
}

/// Sorting what is already in strictly increasing latency changes nothing.
proof fn lemma_ordenado_crescente(s: Seq<UpstreamV>)
    requires
        forall|i: int, j: int| 0 <= i < j < s.len() ==> s[i].latencia < s[j].latencia,
    ensures
        ordenado(s) == s,
    decreases s.len(),
{
    if s.len() > 0 {
        let t = s.drop_last();
        lemma_ordenado_crescente(t);
        lemma_lugar_em(t, s.last(), t.len() as int);
        assert(inserido(t, s.last()) =~= s);
    }
}

// ---------------------------------------------------------------------------
// The pool
// ---------------------------------------------------------------------------

pub struct Pool {
    saudaveis: Vec<Upstream>,
}

/// The first entry whose address is not in `exceto`.
pub open spec fn primeiro_fora(s: Seq<UpstreamV>, exceto: Seq<Seq<char>>) -> Option<int>
    decreases s.len(),
{
    if s.len() == 0 {
        None
    } else if !exceto.contains(s[0].endereco) {
        Some(0)
    } else {
        match primeiro_fora(s.drop_first(), exceto) {
            Some(i) => Some(i + 1),
            None => None,
        }
    }
}

/// The index of the first entry with address `e`, if any.
pub open spec fn posicao(s: Seq<UpstreamV>, e: Seq<char>) -> Option<int>
    decreases s.len(),
{
    if s.len() == 0 {
        None
    } else if s[0].endereco == e {
        Some(0)
    } else {
        match posicao(s.drop_first(), e) {
            Some(i) => Some(i + 1),
            None => None,
        }
    }
}

/// Entries with fewer than two failures stay in the queue.
pub open spec fn vivas() -> spec_fn(UpstreamV) -> bool {
    |u: UpstreamV| u.falhas < 2
}

/// One more failure, counted in 32 bits (it saturates, which an entry never
/// reaches since two failures remove it).
pub open spec fn mais_uma(falhas: nat) -> nat {
    if falhas < 0xFFFF_FFFF {
        falhas + 1
    } else {
        falhas
    }
}

/// The queue after one failure of `e`: the first entry with that address
/// gets one more failure, and every entry with two or more leaves.
pub open spec fn apos_falha(s: Seq<UpstreamV>, e: Seq<char>) -> Seq<UpstreamV> {
    let marcada = match posicao(s, e) {
        Some(i) => s.update(i, UpstreamV { falhas: mais_uma(s[i].falhas), ..s[i] }),
        None => s,
    };
    marcada.filter(vivas())
}

proof fn lemma_primeiro_fora(s: Seq<UpstreamV>, exceto: Seq<Seq<char>>, k: int)
    requires
        0 <= k <= s.len(),
        forall|j: int| 0 <= j < k ==> exceto.contains(#[trigger] s[j].endereco),
        k < s.len() ==> !exceto.contains(s[k].endereco),
    ensures
        k < s.len() ==> primeiro_fora(s, exceto) == Some(k),
        k == s.len() ==> primeiro_fora(s, exceto) is None,
    decreases s.len(),
{
    if s.len() > 0 && k > 0 {
        assert(exceto.contains(s[0].endereco));
        assert forall|j: int| 0 <= j < k - 1 implies exceto.contains(
            #[trigger] s.drop_first()[j].endereco,
        ) by {
            assert(s.drop_first()[j] == s[j + 1]);
        }
        lemma_primeiro_fora(s.drop_first(), exceto, k - 1);
    }
}

proof fn lemma_posicao_valida(s: Seq<UpstreamV>, e: Seq<char>)
    ensures
        posicao(s, e) matches Some(i) ==> 0 <= i < s.len() && s[i].endereco == e,
    decreases s.len(),
{
    if s.len() > 0 && s[0].endereco != e {
        lemma_posicao_valida(s.drop_first(), e);
    }
}

proof fn lemma_posicao(s: Seq<UpstreamV>, e: Seq<char>, k: int)
    requires
        0 <= k <= s.len(),
        forall|j: int| 0 <= j < k ==> #[trigger] s[j].endereco != e,
        k < s.len() ==> s[k].endereco == e,
    ensures
        k < s.len() ==> posicao(s, e) == Some(k),
        k == s.len() ==> posicao(s, e) is None,
    decreases s.len(),
{
    if s.len() > 0 && k > 0 {
        assert(s[0].endereco != e);
        assert forall|j: int| 0 <= j < k - 1 implies #[trigger] s.drop_first()[j].endereco != e by {
            assert(s.drop_first()[j] == s[j + 1]);
        }
        lemma_posicao(s.drop_first(), e, k - 1);
    }
}

fn contem_endereco(exceto: &[String], e: &[char]) -> (r: bool)
    ensures
        r == exceto@.map_values(|s: String| s@).contains(e@),
{
    let ghost vs = exceto@.map_values(|s: String| s@);
    let mut i: usize = 0;
    while i < exceto.len()
        invariant
            i <= exceto@.len(),
            vs == exceto@.map_values(|s: String| s@),
            forall|j: int| 0 <= j < i ==> vs[j] != e@,
        decreases exceto@.len() - i,
    {
        let c = caracteres(exceto[i].as_str());
        if iguais(&c, e) {
            assert(vs[i as int] == e@);
            return true;
        }
        i = i + 1;
    }
    false
}

impl Pool {
    pub closed spec fn view(&self) -> Seq<UpstreamV> {
        vistas(self.saudaveis@)
    }

    /// An empty pool.
    pub fn nova() -> (p: Pool)
        ensures
            p@ == Seq::<UpstreamV>::empty(),
    {
        let p = Pool { saudaveis: Vec::new() };
        assert(p@ =~= Seq::<UpstreamV>::empty());
        p
    }

    /// Replaces the queue with `novos`, ordered by latency (stable).
    pub fn definir(&mut self, novos: Vec<Upstream>)
        ensures
            final(self)@ == ordenado(vistas(novos@)),
    {
        let mut v: Vec<Upstream> = Vec::new();
        let mut novos = novos;
        let ghost origem = vistas(novos@);
        let ghost mut feitos: int = 0;
        assert(origem.subrange(0, 0) =~= Seq::<UpstreamV>::empty());
        assert(origem.subrange(0, origem.len() as int) =~= origem);
        while novos.len() > 0
            invariant
                0 <= feitos <= origem.len(),
                vistas(novos@) == origem.subrange(feitos, origem.len() as int),
                vistas(v@) == ordenado(origem.subrange(0, feitos)),
            decreases novos@.len(),
        {
            let ghost antes = novos@;
            assert(antes.len() > 0);
            assert(vistas(antes).len() == antes.len());
            assert(origem.subrange(feitos, origem.len() as int).len() == origem.len() - feitos);
            let u = novos.remove(0);
            proof {
                assert(u@ == vistas(antes)[0]);
                assert(feitos < origem.len());
                assert(origem.subrange(feitos, origem.len() as int)[0] == u@);
                assert(vistas(novos@) =~= origem.subrange(feitos + 1, origem.len() as int)) by {
                    assert(novos@ =~= antes.subrange(1, antes.len() as int));
                    assert forall|j: int| 0 <= j < novos@.len() implies vistas(novos@)[j] == origem.subrange(feitos + 1, origem.len() as int)[j] by {
                        assert(novos@[j] == antes[j + 1]);
                        assert(vistas(antes)[j + 1] == origem.subrange(feitos, origem.len() as int)[j + 1]);
                    }
                }
            }
            let mut k: usize = 0;
            while k < v.len() && v[k].latencia_ns <= u.latencia_ns
                invariant
                    k <= v@.len(),
                    forall|j: int| 0 <= j < k ==> (#[trigger] v@[j])@.latencia <= u@.latencia,
                decreases v@.len() - k,
            {
                k = k + 1;
            }
            let ghost t = vistas(v@);
            proof {
                assert forall|j: int| 0 <= j < k implies t[j].latencia <= u@.latencia by {
                    assert(t[j] == v@[j]@);
                }
                if k < v@.len() {
                    assert(t[k as int] == v@[k as int]@);
                }
                lemma_lugar_em(t, u@, k as int);
            }
            let ghost vu = u@;
            v.insert(k, u);
            proof {
                assert(vistas(v@) =~= inserido(t, vu));
                assert(origem.subrange(0, feitos + 1).drop_last() =~= origem.subrange(0, feitos));
                assert(origem.subrange(0, feitos + 1).last() == vu);
                feitos = feitos + 1;
            }
        }
        assert(origem.subrange(feitos, origem.len() as int).len() == 0);
        assert(feitos == origem.len());
        self.saudaveis = v;
    }

    /// Best upstream outside `exceto`, or `None` when none is left: what
    /// gives the second attempt of a connection a proxy other than the one
    /// that just failed.
    pub fn melhor_exceto(&self, exceto: &[String]) -> (r: Option<String>)
        ensures
            primeiro_fora(self@, exceto@.map_values(|s: String| s@)) matches Some(i) ==> (r matches Some(e) && e@ == self@[i].endereco),
            primeiro_fora(self@, exceto@.map_values(|s: String| s@)) is None ==> r is None,
    {
        let ghost vs = exceto@.map_values(|s: String| s@);
        let mut i: usize = 0;
        while i < self.saudaveis.len()
            invariant
                i <= self.saudaveis@.len(),
                vs == exceto@.map_values(|s: String| s@),
                forall|j: int| 0 <= j < i ==> vs.contains(#[trigger] self@[j].endereco),
            decreases self.saudaveis@.len() - i,
        {
            let e = caracteres(self.saudaveis[i].endereco.as_str());
            assert(self@[i as int] == self.saudaveis@[i as int]@);
            if !contem_endereco(exceto, &e) {
                proof {
                    lemma_primeiro_fora(self@, vs, i as int);
                }
                return Some(self.saudaveis[i].endereco.clone());
            }
            i = i + 1;
        }
        proof {
            lemma_primeiro_fora(self@, vs, i as int);
        }
        None
    }

    /// Best upstream available, or `None` when the pool is dry.
    pub fn melhor(&self) -> (r: Option<String>)
        ensures
            self@.len() > 0 ==> (r matches Some(e) && e@ == self@[0].endereco),
            self@.len() == 0 ==> r is None,
    {
        let nenhum: Vec<String> = Vec::new();
        let r = self.melhor_exceto(&nenhum);
        proof {
            let vs = nenhum@.map_values(|s: String| s@);
            assert(vs =~= Seq::<Seq<char>>::empty());
            if self@.len() > 0 {
                lemma_primeiro_fora(self@, vs, 0);
            } else {
                lemma_primeiro_fora(self@, vs, 0);
            }
        }
        r
    }

    /// A pool already full, in the given order, with 100 ms more latency for
    /// each next address: for the tests of whoever consumes it.
    pub fn de_teste(enderecos: &[&str]) -> (p: Pool)
        requires
            enderecos@.len() <= 184_467_440_737,
        ensures
            p@.len() == enderecos@.len(),
            forall|i: int| 0 <= i < enderecos@.len() ==> (#[trigger] p@[i]).endereco == enderecos@[i]@
                && p@[i].latencia == 100_000_000 * (i + 1) && p@[i].falhas == 0,
    {
        let mut novos: Vec<Upstream> = Vec::new();
        let mut i: usize = 0;
        while i < enderecos.len()
            invariant
                i <= enderecos@.len() <= 184_467_440_737,
                vistas(novos@).len() == i,
                forall|k: int| 0 <= k < i ==> (#[trigger] vistas(novos@)[k]).endereco == enderecos@[k]@
                    && vistas(novos@)[k].latencia == 100_000_000 * (k + 1) && vistas(novos@)[k].falhas
                    == 0,
            decreases enderecos@.len() - i,
        {
            let e = caracteres(enderecos[i]);
            let r = caracteres("rotterdam");
            let u = Upstream::novo(texto_de(&e), 100_000_000 * (i as u64 + 1), texto_de(&r));
            let ghost antes = novos@;
            novos.push(u);
            assert(vistas(novos@) =~= vistas(antes).push(u@));
            i = i + 1;
        }
        let ghost s = vistas(novos@);
        let mut p = Pool::nova();
        p.definir(novos);
        proof {
            lemma_ordenado_crescente(s);
        }
        p
    }

    pub fn quantidade(&self) -> (r: usize)
        ensures
            r == self@.len(),
    {
        self.saudaveis.len()
    }

    /// A copy of the queue, in order.
    pub fn listar(&self) -> (r: Vec<Upstream>)
        ensures
            vistas(r@) == self@,
    {
        let mut r: Vec<Upstream> = Vec::new();
        let mut i: usize = 0;
        while i < self.saudaveis.len()
            invariant
                i <= self.saudaveis@.len(),
                vistas(r@) == vistas(self.saudaveis@.subrange(0, i as int)),
            decreases self.saudaveis@.len() - i,
        {
            let c = self.saudaveis[i].copiar();
            let ghost antes = r@;
            r.push(c);
            assert(vistas(r@) =~= vistas(antes).push(c@));
            assert(vistas(self.saudaveis@.subrange(0, i + 1)) =~= vistas(self.saudaveis@.subrange(0, i as int)).push(self.saudaveis@[i as int]@));
            i = i + 1;
        }
        assert(self.saudaveis@.subrange(0, self.saudaveis@.len() as int) =~= self.saudaveis@);
        r
    }

    /// Index of the first entry whose address is `e`, or the length.
    fn posicao_de(&self, e: &[char]) -> (r: usize)
        ensures
            r <= self@.len(),
            forall|j: int| 0 <= j < r ==> #[trigger] self@[j].endereco != e@,
            r < self@.len() ==> self@[r as int].endereco == e@,
    {
        let mut i: usize = 0;
        while i < self.saudaveis.len()
            invariant
                i <= self.saudaveis@.len(),
                forall|j: int| 0 <= j < i ==> #[trigger] self@[j].endereco != e@,
            decreases self.saudaveis@.len() - i,
        {
            let c = caracteres(self.saudaveis[i].endereco.as_str());
            assert(self@[i as int] == self.saudaveis@[i as int]@);
            if iguais(&c, e) {
                return i;
            }
            i = i + 1;
        }
        i
    }

    /// Records that an upstream failed in use. Two failures and it leaves
    /// the queue. Returns whether the pool is now thin, which is when the
    /// maintenance must be woken.
    pub fn marcar_falha(&mut self, endereco: &str) -> (magra: bool)
        ensures
            final(self)@ == apos_falha(old(self)@, endereco@),
            magra == (final(self)@.len() < MINIMO_SAUDAVEIS),
    {
        let e = caracteres(endereco);
        let ghost s = self@;
        let i = self.posicao_de(&e);
        let mut vetor = Vec::new();
        std::mem::swap(&mut vetor, &mut self.saudaveis);
        let ghost marcada: Seq<UpstreamV>;
        if i < vetor.len() {
            proof {
                lemma_posicao(s, endereco@, i as int);
            }
            let ghost v0 = vetor@;
            let mut u = vetor.remove(i);
            assert(u@ == s[i as int]);
            if u.falhas < u32::MAX {
                u.falhas = u.falhas + 1;
            }
            vetor.insert(i, u);
            proof {
                marcada = s.update(i as int, UpstreamV { falhas: mais_uma(s[i as int].falhas), ..s[i as int] });
                assert(vistas(vetor@) =~= marcada) by {
                    assert forall|k: int| 0 <= k < vetor@.len() implies vistas(vetor@)[k] == marcada[k] by {
                        if k != i {
                            assert(vetor@[k] == v0[k]);
                        }
                    }
                }
            }
        } else {
            proof {
                lemma_posicao(s, endereco@, i as int);
                marcada = s;
            }
            assert(vistas(vetor@) == marcada);
        }
        let mut mantidos: Vec<Upstream> = Vec::new();
        let mut j: usize = 0;
        while j < vetor.len()
            invariant
                j <= vetor@.len(),
                vistas(vetor@) == marcada,
                vistas(mantidos@) == marcada.subrange(0, j as int).filter(vivas()),
            decreases vetor@.len() - j,
        {
            reveal_with_fuel(Seq::filter, 1);
            assert(marcada.subrange(0, j + 1).drop_last() =~= marcada.subrange(0, j as int));
            assert(marcada[j as int] == vetor@[j as int]@);
            if vetor[j].falhas < 2 {
                mantidos.push(vetor[j].copiar());
            }
            assert(vistas(mantidos@) =~= marcada.subrange(0, j + 1).filter(vivas()));
            j = j + 1;
        }
        assert(marcada.subrange(0, marcada.len() as int) =~= marcada);
        self.saudaveis = mantidos;
        self.saudaveis.len() < MINIMO_SAUDAVEIS
    }
}


// ---------------------------------------------------------------------------
// Candidates
// ---------------------------------------------------------------------------

/// `ip:porta`: a port number after the last colon, and before it four
/// dot-separated numbers of at most 255.
pub open spec fn ip_porta(s: Seq<char>) -> bool {
    let k = indice_final(s, ':');
    &&& k >= 0
    &&& numero(s.subrange(k + 1, s.len() as int), 65535) is Some
    &&& partes(s.subrange(0, k), '.').len() == 4
    &&& forall|i: int|
        0 <= i < 4 ==> numero(#[trigger] partes(s.subrange(0, k), '.')[i], 255) is Some
}

fn ip_porta_exec(s: &[char]) -> (r: bool)
    ensures
        r == ip_porta(s@),
{
    let k = match achar_ultimo(s, ':') {
        None => return false,
        Some(k) => k,
    };
    proof {
        crate::texto::lemma_indice_final(s@, ':');
    }
    let n = s.len();
    assert(k < n);
    let porta = trecho(s, k + 1, n);
    if ler_numero(&porta, 65535).is_none() {
        return false;
    }
    let ip = trecho(s, 0, k);
    let octetos = dividir(&ip, '.');
    if octetos.len() != 4 {
        return false;
    }
    let mut i: usize = 0;
    while i < 4
        invariant
            i <= 4,
            octetos@.len() == 4,
            ip@ == s@.subrange(0, k as int),
            k as int == indice_final(s@, ':'),
            octetos@.len() == partes(ip@, '.').len(),
            forall|m: int| 0 <= m < octetos@.len() ==> #[trigger] octetos@[m]@ == partes(ip@, '.')[m],
            forall|m: int| 0 <= m < i ==> numero(#[trigger] partes(ip@, '.')[m], 255) is Some,
        decreases 4 - i,
    {
        assert(octetos@[i as int]@ == partes(ip@, '.')[i as int]);
        if ler_numero(&octetos[i], 255).is_none() {
            return false;
        }
        i = i + 1;
    }
    true
}

/// Looks like `a.b.c.d:port`, the format of the public lists.
pub fn parece_ip_porta(s: &str) -> (r: bool)
    ensures
        r == ip_porta(s@),
{
    let c = caracteres(s);
    ip_porta_exec(&c)
}

/// The candidates after reading the lines `ls` of a list into `saida`: each
/// line trimmed, kept when it looks like `ip:porta` and was not seen before.
pub open spec fn acrescentados(saida: Seq<Seq<char>>, ls: Seq<Seq<char>>) -> Seq<Seq<char>>
    decreases ls.len(),
{
    if ls.len() == 0 {
        saida
    } else {
        let l = apara(ls[0]);
        let proxima = if ip_porta(l) && !saida.contains(l) {
            saida.push(l)
        } else {
            saida
        };
        acrescentados(proxima, ls.drop_first())
    }
}

pub open spec fn textos(v: Seq<String>) -> Seq<Seq<char>> {
    v.map_values(|s: String| s@)
}

proof fn lemma_acrescentados_passo(saida: Seq<Seq<char>>, ls: Seq<Seq<char>>, i: int)
    requires
        0 <= i < ls.len(),
    ensures
        acrescentados(saida, ls.subrange(i, ls.len() as int)) == acrescentados(
            if ip_porta(apara(ls[i])) && !saida.contains(apara(ls[i])) {
                saida.push(apara(ls[i]))
            } else {
                saida
            },
            ls.subrange(i + 1, ls.len() as int),
        ),
{
    assert(ls.subrange(i, ls.len() as int).drop_first() =~= ls.subrange(i + 1, ls.len() as int));
}

/// Reads one downloaded list into the candidates: every trimmed line that
/// looks like `ip:porta` and is not there yet is appended, in order.
pub fn acrescentar_candidatos(saida: &mut Vec<String>, texto: &str)
    ensures
        textos(final(saida)@) == acrescentados(textos(old(saida)@), linhas(texto@)),
{
    let chars = caracteres(texto);
    let ls = dividir_linhas(&chars);
    let ghost lsv = linhas(texto@);
    let mut i: usize = 0;
    assert(lsv.subrange(0, lsv.len() as int) =~= lsv);
    while i < ls.len()
        invariant
            i <= ls@.len(),
            ls@.len() == lsv.len(),
            lsv == linhas(texto@),
            forall|k: int| 0 <= k < ls@.len() ==> #[trigger] ls@[k]@ == lsv[k],
            acrescentados(textos(old(saida)@), lsv) == acrescentados(
                textos(saida@),
                lsv.subrange(i as int, lsv.len() as int),
            ),
        decreases ls@.len() - i,
    {
        proof {
            lemma_acrescentados_passo(textos(saida@), lsv, i as int);
        }
        assert(ls@[i as int]@ == lsv[i as int]);
        let l = aparado(&ls[i]);
        if ip_porta_exec(&l) {
            let mut visto = false;
            let mut j: usize = 0;
            while j < saida.len()
                invariant
                    j <= saida@.len(),
                    visto <==> exists|m: int| 0 <= m < j && #[trigger] textos(saida@)[m] == l@,
                decreases saida@.len() - j,
            {
                let c = caracteres(saida[j].as_str());
                if iguais(&c, &l) {
                    assert(textos(saida@)[j as int] == l@);
                    visto = true;
                }
                j = j + 1;
            }
            if !visto {
                let ghost antes = textos(saida@);
                saida.push(texto_de(&l));
                assert(textos(saida@) =~= antes.push(l@));
            }
        }
        i = i + 1;
    }
    assert(lsv.subrange(lsv.len() as int, lsv.len() as int) =~= Seq::<Seq<char>>::empty());
}

// ---------------------------------------------------------------------------
// Validation
// ---------------------------------------------------------------------------

/// What the latency probe's body holds, read as a JSON list: for each
/// element, the string under `chave` if the element is an object that has
/// one; `None` when the body is not a JSON list.
pub uninterp spec fn regioes_de_json(corpo: Seq<char>, chave: Seq<char>) -> Option<Seq<Option<Seq<char>>>>;

/// Each text of the list by its view.
pub open spec fn textos_opcionais(v: Seq<Option<String>>) -> Seq<Option<Seq<char>>> {
    v.map_values(|o: Option<String>| match o {
        Some(t) => Some(t@),
        None => None,
    })
}

/// Parses the probe's body with `serde_json::from_str` into a list of
/// `serde_json::Value`, and converts each element to the string it holds
/// under `chave` (`Value::get`, then `Value::as_str`). Trusted to be a
/// function of the body and the key; nothing is claimed about which bodies
/// parse.
#[verifier::external_body]
fn regioes_json(corpo: &str, chave: &str) -> (r: Option<Vec<Option<String>>>)
    ensures
        r matches Some(v) ==> regioes_de_json(corpo@, chave@) == Some(textos_opcionais(v@)),
        r is None ==> regioes_de_json(corpo@, chave@) is None,
{
    let lista: Vec<serde_json::Value> = serde_json::from_str(corpo).ok()?;
    let mut textos: Vec<Option<String>> = Vec::new();
    for v in lista.iter() {
        textos.push(v.get(chave).and_then(serde_json::Value::as_str).map(String::from));
    }
    Some(textos)
}

/// The region the probe reports: that of the first entry of its list.
pub open spec fn primeira_regiao(lista: Option<Seq<Option<Seq<char>>>>) -> Option<Seq<char>> {
    match lista {
        Some(l) => if l.len() > 0 {
            l[0]
        } else {
            None
        },
        None => None,
    }
}

/// The region a probe's body reports, as a function of the body.
pub open spec fn regiao_da_sonda(corpo: Seq<char>) -> Option<Seq<char>> {
    primeira_regiao(regioes_de_json(corpo, "region"@))
}

/// Picks the region out of the probe's list: the `region` of its first
/// entry; `None` for a body that was no list, an empty list, or a first entry
/// without a region.
pub fn regiao_da_lista(lista: Option<Vec<Option<String>>>) -> (r: Option<String>)
    ensures
        (match r { Some(t) => Some(t@), None => None }) == primeira_regiao(
            match lista { Some(v) => Some(textos_opcionais(v@)), None => None },
        ),
{
    match lista {
        None => None,
        Some(mut v) => {
            if v.len() == 0 {
                None
            } else {
                let ghost antes = v@;
                let primeira = v.remove(0);
                assert(primeira == antes[0]);
                primeira
            }
        },
    }
}

/// What a probe through `endereco` gives: a candidate enters the pool only
/// if it answered with a region, and the region is not `brazil`.
pub open spec fn aceito(regiao: Option<Seq<char>>) -> bool {
    match regiao {
        Some(r) => r != "brazil"@,
        None => false,
    }
}

/// Decides on a probed candidate, given the region the probe reported.
pub fn validado(endereco: String, latencia_ns: u64, regiao: Option<String>) -> (r: Option<Upstream>)
    ensures
        !aceito(match regiao { Some(s) => Some(s@), None => None }) ==> r is None,
        aceito(match regiao { Some(s) => Some(s@), None => None }) ==> (r matches Some(u) && u@
            == (UpstreamV {
                endereco: endereco@,
                latencia: latencia_ns as nat,
                regiao: regiao->0@,
                falhas: 0,
            })),
{
    match regiao {
        None => None,
        Some(r) => {
            let c = caracteres(r.as_str());
            if iguais_str(&c, "brazil") {
                None
            } else {
                Some(Upstream::novo(endereco, latencia_ns, r))
            }
        },
    }
}

/// Decides on a probed candidate from the body of the probe's answer.
pub fn validar_resposta(endereco: String, latencia_ns: u64, corpo: &str) -> (r: Option<Upstream>)
    ensures
        !aceito(regiao_da_sonda(corpo@)) ==> r is None,
        aceito(regiao_da_sonda(corpo@)) ==> (r matches Some(u) && u@ == (UpstreamV {
            endereco: endereco@,
            latencia: latencia_ns as nat,
            regiao: regiao_da_sonda(corpo@)->0,
            falhas: 0,
        })),
{
    let regiao = regiao_da_lista(regioes_json(corpo, "region"));
    validado(endereco, latencia_ns, regiao)
}

// ---------------------------------------------------------------------------
// Maintenance
// ---------------------------------------------------------------------------

/// Whether the maintenance refills a pool of `quantidade` healthy proxies:
/// only a thin one.
pub fn deve_reabastecer(quantidade: usize) -> (r: bool)
    ensures
        r == (quantidade < MINIMO_SAUDAVEIS),
{
    quantidade < MINIMO_SAUDAVEIS
}

/// Why a refill gave up.
#[derive(Clone, Copy, PartialEq, Eq, Debug, Structural)]
pub enum ErroReabastecer {
    /// The public lists gave no candidate at all.
    SemCandidatos,
}

impl ErroReabastecer {
    pub fn mensagem(&self) -> (r: &'static str)
        ensures
            r@ == "nenhum candidato nas listas públicas"@,
    {
        match self {
            ErroReabastecer::SemCandidatos => "nenhum candidato nas listas públicas",
        }
    }
}

/// A refill starts only with something to validate.
pub fn conferir_candidatos(candidatos: &Vec<String>) -> (r: Result<(), ErroReabastecer>)
    ensures
        r is Err <==> candidatos@.len() == 0,
        r matches Err(e) ==> e == ErroReabastecer::SemCandidatos,
{
    if candidatos.len() == 0 {
        Err(ErroReabastecer::SemCandidatos)
    } else {
        Ok(())
    }
}

/// Takes in the outcome of one probe during a refill: a validated proxy is
/// kept. Returns whether the refill has validated enough to stop.
pub fn recolher(bons: &mut Vec<Upstream>, resultado: Option<Upstream>) -> (basta: bool)
    ensures
        final(bons)@ == (match resultado {
            Some(u) => old(bons)@.push(u),
            None => old(bons)@,
        }),
        basta == (resultado is Some && final(bons)@.len() >= ALVO_VALIDADOS),
{
    match resultado {
        Some(u) => {
            bons.push(u);
            bons.len() >= ALVO_VALIDADOS
        },
        None => false,
    }
}

// ---------------------------------------------------------------------------
// Laws
// ---------------------------------------------------------------------------

/// After a failure, nobody with two failures is left in the queue, and
/// nobody new appears: the queue only keeps or drops entries.
pub proof fn lei_duas_falhas_removem(s: Seq<UpstreamV>, e: Seq<char>)
    ensures
        forall|i: int| 0 <= i < apos_falha(s, e).len() ==> #[trigger] apos_falha(s, e)[i].falhas < 2,
        apos_falha(s, e).len() <= s.len(),
{
    let marcada = match posicao(s, e) {
        Some(i) => s.update(i, UpstreamV { falhas: mais_uma(s[i].falhas), ..s[i] }),
        None => s,
    };
    lemma_posicao_valida(s, e);
    assert(marcada.len() == s.len());
    #[allow(deprecated)]
    marcada.filter_lemma(vivas());
    marcada.lemma_filter_len(vivas());
}

/// A failure touches only entries with the failing address: every entry left
/// whose address is another was in the queue just as it is, every other entry
/// that was alive stays, and the first entry with the failing address, if it
/// had no failure yet, stays with exactly one.
pub proof fn lei_falha_so_toca_o_endereco(s: Seq<UpstreamV>, e: Seq<char>)
    ensures
        forall|k: int|
            0 <= k < apos_falha(s, e).len() && (#[trigger] apos_falha(s, e)[k]).endereco != e ==> s.contains(
                apos_falha(s, e)[k],
            ),
        forall|j: int|
            0 <= j < s.len() && (#[trigger] s[j]).endereco != e && s[j].falhas < 2 ==> apos_falha(
                s,
                e,
            ).contains(s[j]),
        forall|i: int|
            0 <= i < s.len() && (#[trigger] s[i]).endereco == e && s[i].falhas == 0 && (forall|j: int|
                0 <= j < i ==> s[j].endereco != e) ==> apos_falha(s, e).contains(
                UpstreamV { falhas: 1, ..s[i] },
            ),
{
    let marcada = match posicao(s, e) {
        Some(p) => s.update(p, UpstreamV { falhas: mais_uma(s[p].falhas), ..s[p] }),
        None => s,
    };
    lemma_posicao_valida(s, e);
    assert(marcada.len() == s.len());
    assert forall|m: int| 0 <= m < s.len() && marcada[m].endereco != e implies marcada[m] == s[m] by {
    }
    #[allow(deprecated)]
    marcada.filter_lemma(vivas());
    let r = apos_falha(s, e);
    assert(r == marcada.filter(vivas()));
    assert forall|k: int| 0 <= k < r.len() && (#[trigger] r[k]).endereco != e implies s.contains(r[k]) by {
        assert(r.contains(r[k]));
        marcada.lemma_filter_contains_rev(vivas(), r[k]);
        let m = choose|m: int| 0 <= m < marcada.len() && marcada[m] == r[k];
        assert(s[m] == r[k]);
    }
    assert forall|j: int| 0 <= j < s.len() && (#[trigger] s[j]).endereco != e && s[j].falhas < 2 implies r.contains(s[j]) by {
        assert(marcada[j] == s[j]);
        assert(vivas()(marcada[j]));
    }
    assert forall|i: int|
        0 <= i < s.len() && (#[trigger] s[i]).endereco == e && s[i].falhas == 0 && (forall|j: int|
            0 <= j < i ==> s[j].endereco != e) implies r.contains(UpstreamV { falhas: 1, ..s[i] }) by {
        lemma_posicao(s, e, i);
        assert(marcada[i] == UpstreamV { falhas: 1, ..s[i] });
        assert(vivas()(marcada[i]));
    }
}

/// `decimal` reads back as its number under any bound it respects.
proof fn lemma_numero_decimal(n: nat, max: nat)
    requires
        n <= max,
    ensures
        numero(decimal(n), max) == Some(n),
{
    crate::texto::lemma_decimal(n);
}

/// A decimal text holds no separator.
proof fn lemma_decimal_sem(n: nat, c: char)
    requires
        c == '.' || c == ':',
    ensures
        forall|i: int| 0 <= i < decimal(n).len() ==> decimal(n)[i] != c,
{
    crate::texto::lemma_decimal(n);
    assert forall|i: int| 0 <= i < decimal(n).len() implies decimal(n)[i] != c by {
        assert(crate::texto::digito(decimal(n)[i]));
    }
}

/// Splitting at `.` a decimal text followed by `.` and more gives the text,
/// then the pieces of the rest.
proof fn lemma_partes_decimal(n: nat, resto: Seq<char>)
    ensures
        partes(decimal(n) + seq!['.'] + resto, '.') == seq![decimal(n)] + partes(resto, '.'),
        partes(decimal(n), '.') == seq![decimal(n)],
{
    let d = decimal(n);
    let t = d + seq!['.'] + resto;
    lemma_decimal_sem(n, '.');
    crate::texto::lemma_indice_em(t, '.', d.len() as int);
    crate::texto::lemma_indice_em(d, '.', d.len() as int);
    assert(t.subrange(0, d.len() as int) =~= d);
    assert(t.subrange(d.len() as int + 1, t.len() as int) =~= resto);
}

/// Every `a.b.c.d:p` written in decimal, with octets of at most 255 and a
/// port of at most 65535, is a candidate: the whole port range is accepted.
pub proof fn lei_ip_porta_aceita(a: nat, b: nat, c: nat, d: nat, p: nat)
    requires
        a <= 255,
        b <= 255,
        c <= 255,
        d <= 255,
        p <= 65535,
    ensures
        ip_porta(
            decimal(a) + seq!['.'] + decimal(b) + seq!['.'] + decimal(c) + seq!['.'] + decimal(d) + seq![':']
                + decimal(p),
        ),
{
    let r2 = decimal(c) + seq!['.'] + decimal(d);
    let r1 = decimal(b) + seq!['.'] + r2;
    let x = decimal(a) + seq!['.'] + r1;
    let s = decimal(a) + seq!['.'] + decimal(b) + seq!['.'] + decimal(c) + seq!['.'] + decimal(d) + seq![':']
        + decimal(p);
    assert(s =~= x + seq![':'] + decimal(p));
    let k = x.len() as int;
    lemma_decimal_sem(p, ':');
    assert forall|j: int| k < j < s.len() implies s[j] != ':' by {
        assert(s[j] == decimal(p)[j - k - 1]);
    }
    crate::texto::lemma_indice_final_em(s, ':', k);
    assert(s.subrange(k + 1, s.len() as int) =~= decimal(p));
    lemma_numero_decimal(p, 65535);
    assert(s.subrange(0, k) =~= x);
    lemma_partes_decimal(a, r1);
    lemma_partes_decimal(b, r2);
    lemma_partes_decimal(c, decimal(d));
    lemma_partes_decimal(d, Seq::empty());
    let ps = seq![decimal(a), decimal(b), decimal(c), decimal(d)];
    assert(partes(x, '.') =~= ps);
    lemma_numero_decimal(a, 255);
    lemma_numero_decimal(b, 255);
    lemma_numero_decimal(c, 255);
    lemma_numero_decimal(d, 255);
    assert forall|i: int| 0 <= i < 4 implies numero(#[trigger] partes(s.subrange(0, k), '.')[i], 255) is Some by {
        assert(partes(s.subrange(0, k), '.')[i] == ps[i]);
    }
}

/// The best upstream of a pool just filled is one of the fastest.
pub proof fn lei_melhor_e_o_mais_rapido(s: Seq<UpstreamV>)
    requires
        s.len() > 0,
    ensures
        ordenado(s).len() > 0,
        forall|i: int| 0 <= i < s.len() ==> ordenado(s)[0].latencia <= #[trigger] s[i].latencia,
        s.contains(ordenado(s)[0]),
{
    lei_ordenado(s);
    let o = ordenado(s);
    s.to_multiset_ensures();
    o.to_multiset_ensures();
    assert(o.len() == s.len());
    assert forall|i: int| 0 <= i < s.len() implies o[0].latencia <= #[trigger] s[i].latencia by {
        assert(s.contains(s[i]));
        assert(o.to_multiset().count(s[i]) > 0);
        assert(o.contains(s[i]));
        let j = choose|j: int| 0 <= j < o.len() && o[j] == s[i];
    }
    assert(o.contains(o[0]));
    assert(o.to_multiset().count(o[0]) > 0);
    assert(s.to_multiset().count(o[0]) > 0);
}

} // verus!
