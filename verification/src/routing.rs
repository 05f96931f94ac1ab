//! Per host, whether a connection leaves through the foreign exit or goes
//! direct.
//!
//! Two lists with different roles. `do_discord` says what is **diverted**:
//! always Discord's own domains, never "any host", because the local SOCKS
//! server accepts connections from any program on the machine.
//! `decide_regiao_n` says what **feeds the clock** that closes the opening
//! window: only the hosts whose source address decides the session's region.

use vstd::prelude::*;

use crate::sessao::Fase;
use crate::texto::{
    achar, alfanumerico, anexar, caracteres, comeca, comeca_com, iguais, indice, minuscula,
    minusculas, minusculas_de, sem_final, sem_final_de, termina, termina_com, trecho,
};

verus! {

#[derive(Clone, Copy, PartialEq, Eq, Debug, Structural)]
pub enum Rota {
    Exterior,
    Direta,
}

/// `host` is `dominio` itself or one of its subdomains.
pub open spec fn casa(host: Seq<char>, dominio: Seq<char>) -> bool {
    host == dominio || termina(host, seq!['.'] + dominio)
}

/// Trailing dots removed, then ASCII lower case.
pub open spec fn normalizado(host: Seq<char>) -> Seq<char> {
    minusculas(sem_final(host, '.'))
}

/// A character a DNS name may hold: letters, digits, dot, hyphen, underscore.
pub open spec fn permitido(c: char) -> bool {
    alfanumerico(c) || c == '.' || c == '-' || c == '_'
}

/// Non-empty, at most 253 characters, and only permitted characters. Since
/// every permitted character is ASCII, this counts bytes and characters alike.
pub open spec fn bem_formado(host: Seq<char>) -> bool {
    &&& host.len() > 0
    &&& host.len() <= 253
    &&& forall|i: int| 0 <= i < host.len() ==> permitido(#[trigger] host[i])
}

/// The whole Discord domain: what leaves through the foreign exit while the
/// session is being born.
pub open spec fn do_discord(n: Seq<char>) -> bool {
    ||| casa(n, "discord.com"@)
    ||| casa(n, "discordapp.com"@)
    ||| casa(n, "discord.gg"@)
    ||| casa(n, "discord.media"@)
}

/// The route for a host in a phase.
pub open spec fn rota(host: Seq<char>, fase: Fase) -> Rota {
    if fase == Fase::Estabelecida {
        Rota::Direta
    } else {
        let n = normalizado(host);
        if bem_formado(n) && do_discord(n) {
            Rota::Exterior
        } else {
            Rota::Direta
        }
    }
}

/// First DNS label of a name: the text before the first dot.
pub open spec fn primeiro_rotulo(n: Seq<char>) -> Seq<char> {
    n.subrange(0, indice(n, '.'))
}

/// The main gateway in any regional flavour, on an already normal name.
pub open spec fn gateway_n(n: Seq<char>) -> bool {
    casa(n, "discord.gg"@) && comeca(primeiro_rotulo(n), "gateway"@)
}

/// Whether the source address of a connection to this (normalised) host
/// decides the session's region.
pub open spec fn decide_regiao_n(n: Seq<char>) -> bool {
    &&& !casa(n, "status.discord.com"@)
    &&& {
        ||| casa(n, "discord.com"@)
        ||| casa(n, "gateway.discord.gg"@)
        ||| casa(n, "latency.discord.media"@)
        ||| gateway_n(normalizado(n))
    }
}

fn casa_exec(host: &[char], dominio: &str) -> (r: bool)
    ensures
        r == casa(host@, dominio@),
{
    let d = caracteres(dominio);
    if iguais(host, &d) {
        return true;
    }
    let mut sufixo: Vec<char> = vec!['.'];
    anexar(&mut sufixo, &d);
    assert(sufixo@ =~= seq!['.'] + dominio@);
    termina_com(host, &sufixo)
}

fn normalizar(host: &[char]) -> (r: Vec<char>)
    ensures
        r@ == normalizado(host@),
{
    let sem_pontos = sem_final_de(host, '.');
    minusculas_de(&sem_pontos)
}

fn permitido_exec(c: char) -> (r: bool)
    ensures
        r == permitido(c),
{
    ('a' <= c && c <= 'z') || ('A' <= c && c <= 'Z') || ('0' <= c && c <= '9') || c == '.' || c
        == '-' || c == '_'
}

fn bem_formado_exec(host: &[char]) -> (r: bool)
    ensures
        r == bem_formado(host@),
{
    if host.len() == 0 || host.len() > 253 {
        return false;
    }
    let mut i: usize = 0;
    while i < host.len()
        invariant
            i <= host@.len(),
            forall|j: int| 0 <= j < i ==> permitido(#[trigger] host@[j]),
        decreases host@.len() - i,
    {
        if !permitido_exec(host[i]) {
            return false;
        }
        i = i + 1;
    }
    true
}

/// Only what a DNS name may hold. A name outside this never matches a Discord
/// suffix: `evil.com\0.discord.com` ends in `.discord.com`, but an upstream
/// written in C would resolve only `evil.com`.
pub fn nome_bem_formado(host: &str) -> (r: bool)
    ensures
        r == bem_formado(host@),
{
    let h = caracteres(host);
    bem_formado_exec(&h)
}

fn do_discord_exec(n: &[char]) -> (r: bool)
    ensures
        r == do_discord(n@),
{
    casa_exec(n, "discord.com") || casa_exec(n, "discordapp.com") || casa_exec(n, "discord.gg")
        || casa_exec(n, "discord.media")
}

/// Route for `host` in `fase`: with the session established everything goes
/// direct; while it is being born, a well-formed Discord name goes out
/// through the foreign exit and everything else goes direct.
pub fn decidir(host: &str, fase: Fase) -> (r: Rota)
    ensures
        r == rota(host@, fase),
{
    if fase == Fase::Estabelecida {
        return Rota::Direta;
    }
    let h = caracteres(host);
    let n = normalizar(&h);
    if !bem_formado_exec(&n) {
        return Rota::Direta;
    }
    if do_discord_exec(&n) {
        Rota::Exterior
    } else {
        Rota::Direta
    }
}

fn gateway_exec(n: &[char]) -> (r: bool)
    ensures
        r == gateway_n(n@),
{
    if !casa_exec(n, "discord.gg") {
        return false;
    }
    let fim = achar(n, '.');
    let rotulo = trecho(n, 0, fim);
    let prefixo = caracteres("gateway");
    comeca_com(&rotulo, &prefixo)
}

/// The gateway, in every regional flavour (`gateway.discord.gg`,
/// `gateway-us-east1-b.discord.gg`); not the QR-login `remote-auth-gateway`.
pub fn e_gateway(host: &str) -> (r: bool)
    ensures
        r == gateway_n(normalizado(host@)),
{
    let h = caracteres(host);
    let n = normalizar(&h);
    gateway_exec(&n)
}

/// Whether the source address of this connection decides the session's region.
pub fn decide_regiao(host: &str) -> (r: bool)
    ensures
        r == decide_regiao_n(normalizado(host@)),
{
    let h = caracteres(host);
    let n = normalizar(&h);
    if casa_exec(&n, "status.discord.com") {
        return false;
    }
    if casa_exec(&n, "discord.com") || casa_exec(&n, "gateway.discord.gg") || casa_exec(
        &n,
        "latency.discord.media",
    ) {
        return true;
    }
    let n2 = normalizar(&n);
    gateway_exec(&n2)
}

// ---------------------------------------------------------------------------
// Laws
// ---------------------------------------------------------------------------

proof fn lemma_sem_final_nao_termina(s: Seq<char>, c: char)
    ensures
        sem_final(s, c).len() > 0 ==> sem_final(s, c).last() != c,
        sem_final(s, c).len() <= s.len(),
        sem_final(s, c) == s.subrange(0, sem_final(s, c).len() as int),
    decreases s.len(),
{
    if s.len() > 0 && s.last() == c {
        lemma_sem_final_nao_termina(s.drop_last(), c);
        let r = sem_final(s, c);
        assert(r == s.drop_last().subrange(0, r.len() as int));
        assert(s.drop_last().subrange(0, r.len() as int) =~= s.subrange(0, r.len() as int));
    } else {
        assert(s.subrange(0, s.len() as int) =~= s);
    }
}

proof fn lemma_minusculas_idempotente(s: Seq<char>)
    ensures
        minusculas(minusculas(s)) == minusculas(s),
{
    assert(minusculas(minusculas(s)) =~= minusculas(s));
}

/// Normalising twice is normalising once.
pub proof fn lei_normalizar_idempotente(host: Seq<char>)
    ensures
        normalizado(normalizado(host)) == normalizado(host),
{
    let x = sem_final(host, '.');
    lemma_sem_final_nao_termina(host, '.');
    let m = minusculas(x);
    assert(m.len() == x.len());
    if m.len() > 0 {
        assert(m.last() == minuscula(x.last()));
        assert(m.last() != '.');
    }
    assert(sem_final(m, '.') == m);
    lemma_minusculas_idempotente(x);
}

proof fn lemma_termina_transitivo(n: Seq<char>, a: Seq<char>, b: Seq<char>)
    requires
        termina(n, a),
        termina(a, b),
    ensures
        termina(n, b),
{
    assert forall|k: int| 0 <= k < b.len() implies #[trigger] n.subrange(
        n.len() - b.len(),
        n.len() as int,
    )[k] == b[k] by {
        let j = a.len() - b.len() + k;
        assert(n.subrange(n.len() - a.len(), n.len() as int)[j] == a[j]);
        assert(a.subrange(a.len() - b.len(), a.len() as int)[k] == b[k]);
    }
    assert(n.subrange(n.len() - b.len(), n.len() as int) =~= b);
}

/// A subdomain of `a`, where `a` ends in `.b`, is a subdomain of `b`.
proof fn lemma_casa_subdominio(n: Seq<char>, a: Seq<char>, b: Seq<char>)
    requires
        casa(n, a),
        termina(a, seq!['.'] + b),
    ensures
        casa(n, b),
{
    if n != a {
        assert(termina(seq!['.'] + a, a)) by {
            assert((seq!['.'] + a).subrange(1, a.len() as int + 1) =~= a);
        }
        lemma_termina_transitivo(n, seq!['.'] + a, a);
        lemma_termina_transitivo(n, a, seq!['.'] + b);
    }
}

/// With the session established, every host goes direct.
pub proof fn lei_sessao_estabelecida_vai_direto(host: Seq<char>)
    ensures
        rota(host, Fase::Estabelecida) == Rota::Direta,
{
}

/// Nothing but a well-formed name of Discord's own domain ever leaves
/// through the foreign exit: the local proxy is never a general relay.
pub proof fn lei_exterior_so_para_o_discord(host: Seq<char>, fase: Fase)
    ensures
        rota(host, fase) == Rota::Exterior ==> {
            &&& fase == Fase::Abertura
            &&& bem_formado(normalizado(host))
            &&& do_discord(normalizado(host))
        },
{
}

/// No well-formed host that holds the opening window open (by deciding the
/// region) goes direct while the session is being born.
pub proof fn lei_quem_decide_regiao_e_desviado(host: Seq<char>)
    requires
        bem_formado(normalizado(host)),
        decide_regiao_n(normalizado(host)),
    ensures
        rota(host, Fase::Abertura) == Rota::Exterior,
{
    let n = normalizado(host);
    reveal_strlit("discord.com");
    reveal_strlit("discord.gg");
    reveal_strlit("discord.media");
    reveal_strlit("gateway.discord.gg");
    reveal_strlit("latency.discord.media");
    if casa(n, "gateway.discord.gg"@) {
        assert(termina("gateway.discord.gg"@, seq!['.'] + "discord.gg"@)) by {
            assert("gateway.discord.gg"@.subrange(7, 18) =~= seq!['.'] + "discord.gg"@);
        }
        lemma_casa_subdominio(n, "gateway.discord.gg"@, "discord.gg"@);
    } else if casa(n, "latency.discord.media"@) {
        assert(termina("latency.discord.media"@, seq!['.'] + "discord.media"@)) by {
            assert("latency.discord.media"@.subrange(7, 21) =~= seq!['.'] + "discord.media"@);
        }
        lemma_casa_subdominio(n, "latency.discord.media"@, "discord.media"@);
    } else if !casa(n, "discord.com"@) {
        lei_normalizar_idempotente(host);
    }
}

} // verus!
