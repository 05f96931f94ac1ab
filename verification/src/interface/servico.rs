//! The bridge between the window and the service's command line.
//!
//! The window never opens a SOCKS connection just to see whether the service
//! is up: every such probe would show in the log as a false `early eof`. It
//! reads the same states directly (the installed file, the process, the
//! proxy setting, the log and the ready marker) and this module turns them
//! into what the window shows.

use vstd::prelude::*;

use crate::cli::SUFIXO_VALIDADOS;
use crate::socks::{linha_rota_de, PREFIXO_DIRETO, PREFIXO_EXTERIOR};
use crate::texto::{
    anexar, anexar_str, apara, aparado, caracteres, casa_em, comeca, comeca_com, decimal,
    dividir, dividir_linhas, iguais, iguais_ignorando_caixa, iguais_sem_caixa, iguais_str,
    ler_numero, linhas, numero, partes, termina, termina_com, texto_de, trecho,
};

verus! {

// ---------------------------------------------------------------------------
// Finding text inside text
// ---------------------------------------------------------------------------

/// Position of the first occurrence of `p` in `t` at or after `i`, or `-1`.
pub open spec fn posicao_desde(t: Seq<char>, p: Seq<char>, i: int) -> int
    decreases t.len() + 1 - i,
{
    if i < 0 || i + p.len() > t.len() {
        -1
    } else if t.subrange(i, i + p.len()) == p {
        i
    } else {
        posicao_desde(t, p, i + 1)
    }
}

/// Position of the first occurrence of `p` in `t`, or `-1`.
pub open spec fn posicao(t: Seq<char>, p: Seq<char>) -> int {
    posicao_desde(t, p, 0)
}

/// `split_once(p)`: what comes before and after the first `p`.
pub open spec fn dividido_em(t: Seq<char>, p: Seq<char>) -> Option<(Seq<char>, Seq<char>)> {
    let i = posicao(t, p);
    if i < 0 {
        None
    } else {
        Some((t.subrange(0, i), t.subrange(i + p.len(), t.len() as int)))
    }
}

proof fn lemma_posicao_desde(t: Seq<char>, p: Seq<char>, i: int)
    ensures
        posicao_desde(t, p, i) == -1 || (i <= posicao_desde(t, p, i) && posicao_desde(t, p, i)
            + p.len() <= t.len() && t.subrange(posicao_desde(t, p, i), posicao_desde(t, p, i)
            + p.len()) == p),
    decreases t.len() + 1 - i,
{
    if !(i < 0 || i + p.len() > t.len()) && t.subrange(i, i + p.len()) != p {
        lemma_posicao_desde(t, p, i + 1);
    }
}

fn dividir_em(t: &[char], p: &[char]) -> (r: Option<(Vec<char>, Vec<char>)>)
    ensures
        match dividido_em(t@, p@) {
            Some((a, b)) => r matches Some((x, y)) && x@ == a && y@ == b,
            None => r is None,
        },
{
    proof {
        lemma_posicao_desde(t@, p@, 0);
    }
    if p.len() > t.len() {
        return None;
    }
    let ultimo = t.len() - p.len();
    let mut i: usize = 0;
    loop
        invariant
            p@.len() <= t@.len(),
            ultimo == t@.len() - p@.len(),
            i <= ultimo,
            posicao(t@, p@) == posicao_desde(t@, p@, i as int),
        decreases ultimo - i,
    {
        if casa_em(t, p, i) {
            let n = t.len();
            assert(i + p.len() <= n);
            let a = trecho(t, 0, i);
            let b = trecho(t, i + p.len(), n);
            return Some((a, b));
        }
        if i == ultimo {
            assert(posicao_desde(t@, p@, i + 1) == -1);
            return None;
        }
        i = i + 1;
    }
}

// ---------------------------------------------------------------------------
// The pool, as the service's log tells it
// ---------------------------------------------------------------------------

/// The proxy the service is using now.
#[derive(Debug, PartialEq, Eq)]
pub struct ProxyEmUso {
    pub endereco: String,
    pub regiao: String,
    pub pais: String,
    pub latencia_ms: u64,
}

/// The count a trimmed log line announces, or 0: the number before
/// ` proxies estrangeiros validados`, trimmed.
pub open spec fn quantidade_na_linha(t: Seq<char>) -> nat {
    match dividido_em(t, SUFIXO_VALIDADOS@) {
        Some((n, _)) => match numero(apara(n), u32::MAX as nat) {
            Some(v) => v,
            None => 0,
        },
        None => 0,
    }
}

/// The count of the last line that announces one other than 0.
pub open spec fn quantidade_de(ls: Seq<Seq<char>>) -> nat
    decreases ls.len(),
{
    if ls.len() == 0 {
        0
    } else {
        let q = quantidade_na_linha(apara(ls.last()));
        if q != 0 {
            q
        } else {
            quantidade_de(ls.drop_last())
        }
    }
}

/// The count comes from the last line that announces one: a log that ends
/// in a refill's line reports that refill's count, a line that announces
/// nothing leaves the count of the log before it, and an empty log reports 0.
pub proof fn lei_contagem_da_ultima_linha(ls: Seq<Seq<char>>, l: Seq<char>)
    ensures
        quantidade_de(Seq::<Seq<char>>::empty()) == 0,
        quantidade_na_linha(apara(l)) != 0 ==> quantidade_de(ls.push(l)) == quantidade_na_linha(apara(l)),
        quantidade_na_linha(apara(l)) == 0 ==> quantidade_de(ls.push(l)) == quantidade_de(ls),
{
    assert(ls.push(l).drop_last() =~= ls);
    assert(ls.push(l).last() == l);
}

/// The proxy a trimmed log line announces: `<address> (<region>) <n>ms`,
/// the number trimmed.
pub open spec fn proxy_na_linha(t: Seq<char>) -> Option<(Seq<char>, Seq<char>, nat)> {
    match dividido_em(t, " ("@) {
        Some((endereco, resto)) => match dividido_em(resto, ") "@) {
            Some((regiao, latencia)) => if termina(latencia, "ms"@) {
                match numero(
                    apara(latencia.subrange(0, latencia.len() - 2)),
                    u64::MAX as nat,
                ) {
                    Some(v) => Some((endereco, regiao, v)),
                    None => None,
                }
            } else {
                None
            },
            None => None,
        },
        None => None,
    }
}

/// The proxy of the last line that announces one.
pub open spec fn proxy_de(ls: Seq<Seq<char>>) -> Option<(Seq<char>, Seq<char>, nat)>
    decreases ls.len(),
{
    if ls.len() == 0 {
        None
    } else {
        match proxy_na_linha(apara(ls.last())) {
            Some(p) => Some(p),
            None => proxy_de(ls.drop_last()),
        }
    }
}

fn quantidade_na_linha_de(t: &[char]) -> (r: u32)
    ensures
        r as nat == quantidade_na_linha(t@),
{
    let padrao = caracteres(SUFIXO_VALIDADOS);
    match dividir_em(t, &padrao) {
        Some((n, _)) => match ler_numero(&aparado(&n), u32::MAX as u64) {
            Some(v) => v as u32,
            None => 0,
        },
        None => 0,
    }
}

fn proxy_na_linha_de(t: &[char]) -> (r: Option<ProxyEmUso>)
    ensures
        match proxy_na_linha(t@) {
            Some((e, g, v)) => r matches Some(p) && p.endereco@ == e && p.regiao@ == g
                && p.pais@.len() == 0 && p.latencia_ms as nat == v,
            None => r is None,
        },
{
    let abre = caracteres(" (");
    let fecha = caracteres(") ");
    let ms = caracteres("ms");
    let (endereco, resto) = match dividir_em(t, &abre) {
        Some(x) => x,
        None => return None,
    };
    let (regiao, latencia) = match dividir_em(&resto, &fecha) {
        Some(x) => x,
        None => return None,
    };
    if !termina_com(&latencia, &ms) {
        return None;
    }
    proof {
        reveal_strlit("ms");
    }
    let numero_v = trecho(&latencia, 0, latencia.len() - 2);
    match ler_numero(&aparado(&numero_v), u64::MAX) {
        Some(v) => Some(
            ProxyEmUso {
                endereco: texto_de(&endereco),
                regiao: texto_de(&regiao),
                pais: String::new(),
                latencia_ms: v,
            },
        ),
        None => None,
    }
}

/// The healthy-proxy count and the proxy in use, from the service's log:
/// the last line that announces each.
pub fn dados_do_log(log: &str) -> (r: (u32, Option<ProxyEmUso>))
    ensures
        r.0 as nat == quantidade_de(linhas(log@)),
        match proxy_de(linhas(log@)) {
            Some((e, g, v)) => r.1 matches Some(p) && p.endereco@ == e && p.regiao@ == g
                && p.pais@.len() == 0 && p.latencia_ms as nat == v,
            None => r.1 is None,
        },
{
    let c = caracteres(log);
    let ls = dividir_linhas(&c);
    let ghost todas = linhas(log@);
    let mut quantidade: u32 = 0;
    let mut proxy: Option<ProxyEmUso> = None;
    let mut i: usize = ls.len();
    assert(todas.take(i as int) =~= todas);
    while i > 0
        invariant
            ls@.len() == todas.len(),
            forall|k: int| 0 <= k < ls@.len() ==> #[trigger] ls@[k]@ == todas[k],
            i <= ls@.len(),
            quantidade != 0 ==> quantidade as nat == quantidade_de(todas),
            quantidade == 0 ==> quantidade_de(todas) == quantidade_de(todas.take(i as int)),
            match proxy {
                Some(p) => proxy_de(todas) == Some((p.endereco@, p.regiao@, p.latencia_ms as nat))
                    && p.pais@.len() == 0,
                None => proxy_de(todas) == proxy_de(todas.take(i as int)),
            },
        decreases i,
    {
        let ghost parte = todas.take(i as int);
        assert(parte.drop_last() =~= todas.take(i - 1));
        assert(parte.last() == ls@[i - 1]@);
        let t = aparado(&ls[i - 1]);
        if quantidade == 0 {
            quantidade = quantidade_na_linha_de(&t);
        }
        if proxy.is_none() {
            proxy = proxy_na_linha_de(&t);
        }
        i = i - 1;
    }
    assert(todas.take(0) =~= Seq::<Seq<char>>::empty());
    (quantidade, proxy)
}

// ---------------------------------------------------------------------------
// Versions
// ---------------------------------------------------------------------------

/// The numbers of a version, when every part parses.
pub open spec fn numeros(ps: Seq<Seq<char>>) -> Option<Seq<u64>>
    decreases ps.len(),
{
    if ps.len() == 0 {
        Some(seq![])
    } else {
        match (numeros(ps.drop_last()), numero(ps.last(), u64::MAX as nat)) {
            (Some(a), Some(v)) => Some(a.push(v as u64)),
            _ => None,
        }
    }
}

/// A version without its leading `v`.
pub open spec fn sem_v(t: Seq<char>) -> Seq<char> {
    if t.len() > 0 && t[0] == 'v' {
        t.drop_first()
    } else {
        t
    }
}

/// The numbers of a stable version: trimmed, an optional leading `v`, then
/// dot-separated numbers; a pre-release (with `-`) or an empty version has
/// none.
pub open spec fn versao(s: Seq<char>) -> Option<Seq<u64>> {
    let v = sem_v(apara(s));
    if v.len() == 0 || v.contains('-') {
        None
    } else {
        numeros(partes(v, '.'))
    }
}

pub fn partes_da_versao(versao_texto: &str) -> (r: Option<Vec<u64>>)
    ensures
        match versao(versao_texto@) {
            Some(a) => r matches Some(v) && v@ == a,
            None => r is None,
        },
{
    let t = aparado(&caracteres(versao_texto));
    let v = if t.len() > 0 && t[0] == 'v' {
        trecho(&t, 1, t.len())
    } else {
        t
    };
    assert(v@ == sem_v(apara(versao_texto@))) by {
        if apara(versao_texto@).len() > 0 && apara(versao_texto@)[0] == 'v' {
            assert(apara(versao_texto@).drop_first() =~= v@);
        }
    }
    if v.len() == 0 {
        return None;
    }
    let mut j: usize = 0;
    while j < v.len()
        invariant
            v@ == sem_v(apara(versao_texto@)),
            j <= v@.len(),
            forall|k: int| 0 <= k < j ==> v@[k] != '-',
        decreases v@.len() - j,
    {
        if v[j] == '-' {
            assert(v@.contains('-'));
            return None;
        }
        j = j + 1;
    }
    assert(!v@.contains('-'));
    let ps = dividir(&v, '.');
    let ghost todas = partes(v@, '.');
    let mut r: Vec<u64> = Vec::new();
    let mut i: usize = 0;
    while i < ps.len()
        invariant
            v@ == sem_v(apara(versao_texto@)),
            v@.len() > 0,
            !v@.contains('-'),
            todas == partes(v@, '.'),
            ps@.len() == todas.len(),
            forall|k: int| 0 <= k < ps@.len() ==> #[trigger] ps@[k]@ == todas[k],
            i <= ps@.len(),
            numeros(todas.take(i as int)) == Some(r@),
            numeros(todas) == match numeros(todas.take(i as int)) {
                Some(_) => numeros(todas),
                None => None::<Seq<u64>>,
            },
        decreases ps@.len() - i,
    {
        assert(todas.take(i + 1).drop_last() =~= todas.take(i as int));
        assert(todas.take(i + 1).last() == ps@[i as int]@);
        match ler_numero(&ps[i], u64::MAX) {
            Some(x) => {
                r.push(x);
            },
            None => {
                proof {
                    lemma_numeros_prefixo(todas, i + 1);
                }
                return None;
            },
        }
        i = i + 1;
    }
    assert(todas.take(todas.len() as int) =~= todas);
    Some(r)
}

/// A prefix without numbers spoils the whole version.
proof fn lemma_numeros_prefixo(ps: Seq<Seq<char>>, k: int)
    requires
        0 <= k <= ps.len(),
        numeros(ps.take(k)) is None,
    ensures
        numeros(ps) is None,
    decreases ps.len() - k,
{
    if k < ps.len() {
        assert(ps.take(k + 1).drop_last() =~= ps.take(k));
        lemma_numeros_prefixo(ps, k + 1);
    } else {
        assert(ps.take(k) =~= ps);
    }
}

/// The `i`-th number of a version, 0 past its end.
pub open spec fn numero_em(v: Seq<u64>, i: int) -> u64 {
    if 0 <= i < v.len() {
        v[i]
    } else {
        0
    }
}

/// `a` comes after `b`: at the first position where they differ (missing
/// numbers count as 0), `a` is larger.
pub open spec fn depois(a: Seq<u64>, b: Seq<u64>) -> bool {
    exists|k: int|
        0 <= k && (forall|j: int| 0 <= j < k ==> numero_em(a, j) == numero_em(b, j))
            && #[trigger] numero_em(a, k) > numero_em(b, k)
}

/// The remote version is a newer stable version than the local one.
pub open spec fn mais_nova(remota: Seq<char>, local: Seq<char>) -> bool {
    match (versao(remota), versao(local)) {
        (Some(a), Some(b)) => depois(a, b),
        _ => false,
    }
}

pub fn versao_mais_nova(remota: &str, local: &str) -> (r: bool)
    ensures
        r == mais_nova(remota@, local@),
{
    let a = match partes_da_versao(remota) {
        Some(a) => a,
        None => return false,
    };
    let b = match partes_da_versao(local) {
        Some(b) => b,
        None => return false,
    };
    let tamanho = if a.len() > b.len() {
        a.len()
    } else {
        b.len()
    };
    let mut i: usize = 0;
    while i < tamanho
        invariant
            tamanho == if a@.len() > b@.len() {
                a@.len()
            } else {
                b@.len()
            },
            i <= tamanho,
            versao(remota@) == Some(a@),
            versao(local@) == Some(b@),
            forall|j: int| 0 <= j < i ==> numero_em(a@, j) == numero_em(b@, j),
        decreases tamanho - i,
    {
        let x = if i < a.len() {
            a[i]
        } else {
            0
        };
        let y = if i < b.len() {
            b[i]
        } else {
            0
        };
        assert(x == numero_em(a@, i as int) && y == numero_em(b@, i as int));
        if x > y {
            assert(depois(a@, b@)) by {
                assert(numero_em(a@, i as int) > numero_em(b@, i as int));
            }
            return true;
        }
        if x < y {
            assert forall|k: int|
                0 <= k && (forall|j: int| 0 <= j < k ==> numero_em(a@, j) == numero_em(b@, j))
                    implies !(#[trigger] numero_em(a@, k) > numero_em(b@, k)) by {
                if k > i {
                    assert(numero_em(a@, i as int) == numero_em(b@, i as int));
                }
            }
            return false;
        }
        i = i + 1;
    }
    assert forall|k: int|
        0 <= k && (forall|j: int| 0 <= j < k ==> numero_em(a@, j) == numero_em(b@, j))
            implies !(#[trigger] numero_em(a@, k) > numero_em(b@, k)) by {
        if k >= tamanho {
            assert(numero_em(a@, k) == 0 && numero_em(b@, k) == 0);
        }
    }
    false
}

/// No version is newer than itself.
pub proof fn lei_versao_nao_e_mais_nova_que_ela_mesma(v: Seq<char>)
    ensures
        !mais_nova(v, v),
{
}

/// Of two versions, at most one is newer than the other.
pub proof fn lei_mais_nova_e_assimetrica(a: Seq<char>, b: Seq<char>)
    ensures
        !(mais_nova(a, b) && mais_nova(b, a)),
{
    if mais_nova(a, b) && mais_nova(b, a) {
        let x = versao(a).unwrap();
        let y = versao(b).unwrap();
        let k1 = choose|k: int|
            0 <= k && (forall|j: int| 0 <= j < k ==> numero_em(x, j) == numero_em(y, j))
                && #[trigger] numero_em(x, k) > numero_em(y, k);
        let k2 = choose|k: int|
            0 <= k && (forall|j: int| 0 <= j < k ==> numero_em(y, j) == numero_em(x, j))
                && #[trigger] numero_em(y, k) > numero_em(x, k);
        if k1 < k2 {
            assert(numero_em(y, k1) == numero_em(x, k1));
        } else if k2 < k1 {
            assert(numero_em(x, k2) == numero_em(y, k2));
        }
    }
}

// ---------------------------------------------------------------------------
// Updates
// ---------------------------------------------------------------------------

/// A file attached to a release.
pub struct AssetGithub {
    pub name: String,
    pub browser_download_url: String,
}

/// The latest release, as GitHub's API describes it.
pub struct ReleaseGithub {
    pub tag_name: String,
    pub draft: bool,
    pub prerelease: bool,
    pub assets: Vec<AssetGithub>,
}

/// The release the person can download safely. The window installs
/// nothing by itself: it opens this address when the person asks.
#[derive(Debug, PartialEq, Eq)]
pub struct Atualizacao {
    pub versao: String,
    pub url: String,
}

pub open spec fn pasta_da_release(tag: Seq<char>) -> Seq<char> {
    "https://github.com/schacal/FOL-discord/releases/download/"@ + tag + "/"@
}

/// The setup under the name the installer stamps with the version.
pub open spec fn setup_com_versao(versao: Seq<char>) -> Seq<char> {
    "FOL-discord_"@ + versao + "_x64-setup.exe"@
}

/// The copy of the setup under a stable name.
pub open spec fn setup_estavel() -> Seq<char> {
    "FOL-discord-setup.exe"@
}

/// The release has an asset named `nome` at the address of that name
/// inside the release itself.
pub open spec fn tem_asset(assets: Seq<AssetGithub>, nome: Seq<char>, pasta: Seq<char>) -> bool {
    exists|i: int|
        0 <= i < assets.len() && #[trigger] assets[i].name@ == nome
            && assets[i].browser_download_url@ == pasta + nome
}

/// What the window offers for a release: nothing for a draft, a
/// pre-release or a version that is not newer than `local`; otherwise the
/// versioned setup, or else the stable-named one, when the release holds it
/// at its own address.
pub open spec fn atualizacao_de(
    tag: Seq<char>,
    draft: bool,
    prerelease: bool,
    assets: Seq<AssetGithub>,
    local: Seq<char>,
) -> Option<(Seq<char>, Seq<char>)> {
    let versao = sem_v(tag);
    let pasta = pasta_da_release(tag);
    if draft || prerelease || !mais_nova(tag, local) {
        None
    } else if tem_asset(assets, setup_com_versao(versao), pasta) {
        Some((versao, pasta + setup_com_versao(versao)))
    } else if tem_asset(assets, setup_estavel(), pasta) {
        Some((versao, pasta + setup_estavel()))
    } else {
        None
    }
}

fn achar_asset(assets: &[AssetGithub], nome: &[char], pasta: &[char]) -> (r: bool)
    ensures
        r == tem_asset(assets@, nome@, pasta@),
{
    let mut url = trecho(pasta, 0, pasta.len());
    anexar(&mut url, nome);
    let mut i: usize = 0;
    while i < assets.len()
        invariant
            url@ == pasta@ + nome@,
            i <= assets@.len(),
            forall|k: int|
                0 <= k < i ==> !(#[trigger] assets@[k].name@ == nome@
                    && assets@[k].browser_download_url@ == pasta@ + nome@),
        decreases assets@.len() - i,
    {
        let a = &assets[i];
        if iguais(&caracteres(a.name.as_str()), nome) && iguais(
            &caracteres(a.browser_download_url.as_str()),
            &url,
        ) {
            return true;
        }
        i = i + 1;
    }
    false
}

/// The update a release offers over the version `versao_local`.
pub fn atualizacao_da_release(release: &ReleaseGithub, versao_local: &str) -> (r: Option<
    Atualizacao,
>)
    ensures
        match atualizacao_de(
            release.tag_name@,
            release.draft,
            release.prerelease,
            release.assets@,
            versao_local@,
        ) {
            Some((v, u)) => r matches Some(a) && a.versao@ == v && a.url@ == u,
            None => r is None,
        },
{
    if release.draft || release.prerelease || !versao_mais_nova(
        release.tag_name.as_str(),
        versao_local,
    ) {
        return None;
    }
    let tag = caracteres(release.tag_name.as_str());
    let versao = if tag.len() > 0 && tag[0] == 'v' {
        trecho(&tag, 1, tag.len())
    } else {
        trecho(&tag, 0, tag.len())
    };
    assert(versao@ == sem_v(tag@)) by {
        if tag@.len() > 0 && tag@[0] == 'v' {
            assert(tag@.drop_first() =~= versao@);
        } else {
            assert(tag@ =~= versao@);
        }
    }
    let mut pasta = caracteres("https://github.com/schacal/FOL-discord/releases/download/");
    anexar(&mut pasta, &tag);
    anexar_str(&mut pasta, "/");
    assert(pasta@ =~= pasta_da_release(tag@));
    let mut com_versao = caracteres("FOL-discord_");
    anexar(&mut com_versao, &versao);
    anexar_str(&mut com_versao, "_x64-setup.exe");
    assert(com_versao@ =~= setup_com_versao(versao@));
    let estavel = caracteres("FOL-discord-setup.exe");
    let nome = if achar_asset(&release.assets, &com_versao, &pasta) {
        com_versao
    } else if achar_asset(&release.assets, &estavel, &pasta) {
        estavel
    } else {
        return None;
    };
    let mut url = trecho(&pasta, 0, pasta.len());
    anexar(&mut url, &nome);
    Some(Atualizacao { versao: texto_de(&versao), url: texto_de(&url) })
}

/// The window only offers a stable release newer than the local version,
/// and only an installer that lives inside that release.
pub proof fn lei_aviso_so_com_instalador_da_propria_release(
    tag: Seq<char>,
    draft: bool,
    prerelease: bool,
    assets: Seq<AssetGithub>,
    local: Seq<char>,
)
    ensures
        atualizacao_de(tag, draft, prerelease, assets, local) matches Some((v, u)) ==> {
            &&& !draft && !prerelease
            &&& mais_nova(tag, local)
            &&& v == sem_v(tag)
            &&& comeca(u, pasta_da_release(tag))
            &&& (tem_asset(assets, setup_com_versao(v), pasta_da_release(tag)) || tem_asset(
                assets,
                setup_estavel(),
                pasta_da_release(tag),
            ))
        },
{
    let pasta = pasta_da_release(tag);
    if let Some((v, u)) = atualizacao_de(tag, draft, prerelease, assets, local) {
        if tem_asset(assets, setup_com_versao(v), pasta) {
            assert(u.subrange(0, pasta.len() as int) =~= pasta);
        } else {
            assert(u.subrange(0, pasta.len() as int) =~= pasta);
        }
    }
}

// ---------------------------------------------------------------------------
// Recent connections
// ---------------------------------------------------------------------------

/// A route the service took, as the window lists it.
pub struct Conexao {
    pub hora_utc: u64,
    pub host: String,
    pub porta: u16,
    pub rota: &'static str,
}

/// A route as the log states it: host, port, and whether it went abroad.
pub struct ConexaoV {
    pub host: Seq<char>,
    pub porta: u16,
    pub exterior: bool,
}

/// How many routes the window lists, newest first.
pub const MAXIMO_CONEXOES: usize = 20;

/// The route a trimmed log line records: `exterior  ` or `direto    `, then
/// `host:port` split at the last `:`, the port a number and the host not
/// empty. Other lines are the service's own diagnostics.
pub open spec fn rota_na_linha(t: Seq<char>) -> Option<ConexaoV> {
    let (exterior, destino) = if comeca(t, PREFIXO_EXTERIOR@) {
        (true, Some(t.subrange(PREFIXO_EXTERIOR@.len() as int, t.len() as int)))
    } else if comeca(t, PREFIXO_DIRETO@) {
        (false, Some(t.subrange(PREFIXO_DIRETO@.len() as int, t.len() as int)))
    } else {
        (false, None)
    };
    match destino {
        Some(d) => {
            let k = crate::texto::indice_final(d, ':');
            if k < 0 {
                None
            } else {
                let host = d.subrange(0, k);
                match numero(d.subrange(k + 1, d.len() as int), u16::MAX as nat) {
                    Some(porta) => if host.len() > 0 {
                        Some(ConexaoV { host, porta: porta as u16, exterior })
                    } else {
                        None
                    },
                    None => None,
                }
            }
        },
        None => None,
    }
}

/// The routes the log records, newest first.
pub open spec fn rotas(ls: Seq<Seq<char>>) -> Seq<ConexaoV>
    decreases ls.len(),
{
    if ls.len() == 0 {
        seq![]
    } else {
        let resto = rotas(ls.drop_last());
        match rota_na_linha(apara(ls.last())) {
            Some(c) => seq![c] + resto,
            None => resto,
        }
    }
}

/// The text the window shows for a route.
pub open spec fn texto_da_rota(exterior: bool) -> Seq<char> {
    if exterior {
        "exterior"@
    } else {
        "direto"@
    }
}

/// `c` lists the route `v`: its host, its port, and its route's text.
pub open spec fn registra(c: Conexao, v: ConexaoV) -> bool {
    &&& c.host@ == v.host
    &&& c.porta == v.porta
    &&& c.rota@ == texto_da_rota(v.exterior)
}

fn rota_na_linha_de(t: &[char], hora_utc: u64) -> (r: Option<Conexao>)
    ensures
        match rota_na_linha(t@) {
            Some(c) => r matches Some(x) && registra(x, c) && x.hora_utc == hora_utc,
            None => r is None,
        },
{
    proof {
        reveal_strlit("exterior");
        reveal_strlit("direto");
        assert("direto"@[0] != "exterior"@[0]);
        assert("direto"@ != "exterior"@);
    }
    let ext = caracteres(PREFIXO_EXTERIOR);
    let dir = caracteres(PREFIXO_DIRETO);
    let (rota, destino): (&'static str, Vec<char>) = if comeca_com(t, &ext) {
        ("exterior", trecho(t, ext.len(), t.len()))
    } else if comeca_com(t, &dir) {
        ("direto", trecho(t, dir.len(), t.len()))
    } else {
        return None;
    };
    proof {
        crate::texto::lemma_indice_final(destino@, ':');
    }
    let k = match crate::texto::achar_ultimo(&destino, ':') {
        Some(k) => k,
        None => return None,
    };
    let host = trecho(&destino, 0, k);
    let porta_v = trecho(&destino, k + 1, destino.len());
    let porta = match ler_numero(&porta_v, u16::MAX as u64) {
        Some(p) => p as u16,
        None => return None,
    };
    if host.len() == 0 {
        return None;
    }
    assert(rota_na_linha(t@) == Some(ConexaoV { host: host@, porta, exterior: rota@ == "exterior"@ }));
    Some(Conexao { hora_utc, host: texto_de(&host), porta, rota })
}

/// The routes of the log, newest first and at most `MAXIMO_CONEXOES`, each
/// stamped with `hora_utc`: the service writes no time per line, so the
/// caller passes the log's last modification.
pub fn interpretar_conexoes(log: &str, hora_utc: u64) -> (r: Vec<Conexao>)
    ensures
        r@.len() == if rotas(linhas(log@)).len() < MAXIMO_CONEXOES {
            rotas(linhas(log@)).len()
        } else {
            MAXIMO_CONEXOES as nat
        },
        forall|k: int|
            0 <= k < r@.len() ==> registra(#[trigger] r@[k], rotas(linhas(log@))[k])
                && r@[k].hora_utc == hora_utc,
{
    let c = caracteres(log);
    let ls = dividir_linhas(&c);
    let ghost todas = linhas(log@);
    let ghost total = rotas(todas);
    let mut r: Vec<Conexao> = Vec::new();
    let mut i: usize = ls.len();
    assert(todas.take(i as int) =~= todas);
    while i > 0 && r.len() < MAXIMO_CONEXOES
        invariant
            ls@.len() == todas.len(),
            forall|k: int| 0 <= k < ls@.len() ==> #[trigger] ls@[k]@ == todas[k],
            total == rotas(todas),
            i <= ls@.len(),
            r@.len() <= MAXIMO_CONEXOES,
            r@.len() + rotas(todas.take(i as int)).len() == total.len(),
            forall|k: int|
                0 <= k < r@.len() ==> registra(#[trigger] r@[k], total[k])
                    && r@[k].hora_utc == hora_utc,
            forall|k: int|
                0 <= k < rotas(todas.take(i as int)).len() ==> total[r@.len() + k]
                    == #[trigger] rotas(todas.take(i as int))[k],
        decreases i,
    {
        let ghost parte = todas.take(i as int);
        assert(parte.drop_last() =~= todas.take(i - 1));
        assert(parte.last() == ls@[i - 1]@);
        let t = aparado(&ls[i - 1]);
        let ghost antes = r@;
        match rota_na_linha_de(&t, hora_utc) {
            Some(x) => {
                r.push(x);
                assert forall|k: int| 0 <= k < r@.len() implies registra(#[trigger] r@[k], total[k]) && r@[k].hora_utc == hora_utc by {
                    if k < antes.len() {
                        assert(r@[k] == antes[k]);
                    } else {
                        assert(rotas(parte)[0] == total[antes.len() as int]);
                    }
                }
                assert forall|k: int| 0 <= k < rotas(todas.take(i - 1)).len() implies total[r@.len()
                    + k] == #[trigger] rotas(todas.take(i - 1))[k] by {
                    assert(rotas(parte)[k + 1] == rotas(todas.take(i - 1))[k]);
                }
            },
            None => {},
        }
        i = i - 1;
    }
    r
}

// ---------------------------------------------------------------------------
// Status
// ---------------------------------------------------------------------------

/// What the window shows about the service.
#[derive(Clone, Copy, Debug, PartialEq, Eq, Structural)]
pub enum Estado {
    Parado,
    Pausado,
    SemProxies,
    Operacional,
}

impl Estado {
    /// The name the web page knows the state by.
    pub fn texto(&self) -> (r: &'static str)
        ensures
            *self == Estado::Parado ==> r@ == "parado"@,
            *self == Estado::Pausado ==> r@ == "pausado"@,
            *self == Estado::SemProxies ==> r@ == "sem_proxies"@,
            *self == Estado::Operacional ==> r@ == "operacional"@,
    {
        match self {
            Estado::Parado => "parado",
            Estado::Pausado => "pausado",
            Estado::SemProxies => "sem_proxies",
            Estado::Operacional => "operacional",
        }
    }
}

/// The state: stopped unless installed and running; paused without the
/// PAC; without proxies until the pool is ready; otherwise operational.
pub open spec fn estado_de(instalado: bool, rodando: bool, pac_ligado: bool, prontos: bool) -> Estado {
    if !instalado || !rodando {
        Estado::Parado
    } else if !pac_ligado {
        Estado::Pausado
    } else if !prontos {
        Estado::SemProxies
    } else {
        Estado::Operacional
    }
}

/// What the window shows, case by case: stopped whenever the service is not
/// installed or not running; paused whenever it runs with the PAC off,
/// whatever the pool holds; without proxies when the PAC is on and the pool
/// is not ready; working only when the PAC is on and the pool is ready.
pub proof fn lei_estado_mostrado(instalado: bool, rodando: bool, pac_ligado: bool, prontos: bool)
    ensures
        (estado_de(instalado, rodando, pac_ligado, prontos) == Estado::Parado) == (!instalado || !rodando),
        (estado_de(instalado, rodando, pac_ligado, prontos) == Estado::Pausado) == (instalado && rodando && !pac_ligado),
        (estado_de(instalado, rodando, pac_ligado, prontos) == Estado::SemProxies) == (instalado && rodando && pac_ligado && !prontos),
        (estado_de(instalado, rodando, pac_ligado, prontos) == Estado::Operacional) == (instalado && rodando && pac_ligado && prontos),
{
}

/// Everything the window shows about the service.
pub struct Status {
    pub versao: String,
    pub estado: Estado,
    pub autostart: bool,
    pub pac_ligado: bool,
    pub proxies_saudaveis: u32,
    pub proxy_em_uso: Option<ProxyEmUso>,
    pub ultima_validacao_utc: Option<u64>,
    pub atualizacao: Option<Atualizacao>,
    pub erro_inicializacao: Option<String>,
}

/// The instant a last-validation file holds: its content, trimmed, as milliseconds.
pub open spec fn ultima_validacao(conteudo: Seq<char>) -> Option<nat> {
    numero(apara(conteudo), u64::MAX as nat)
}

pub fn ler_ultima_validacao_em(conteudo: &str) -> (r: Option<u64>)
    ensures
        match ultima_validacao(conteudo@) {
            Some(v) => r == Some(v as u64),
            None => r is None,
        },
{
    ler_numero(&aparado(&caracteres(conteudo)), u64::MAX)
}

/// The window's status from what it read: whether the service is installed
/// and its process runs, the autostart task, the proxy setting, the log
/// (when it could be read), the ready marker, the last-validation file
/// (when it could be read), the known update and the startup error.
pub fn status(
    versao: &str,
    instalado: bool,
    servico_rodando: bool,
    autostart: bool,
    pac_ligado: bool,
    log: Option<&str>,
    proxies_prontos: bool,
    ultima_validacao_lida: Option<&str>,
    atualizacao: Option<Atualizacao>,
    erro_inicializacao: Option<String>,
) -> (r: Status)
    ensures
        r.versao@ == versao@,
        r.estado == estado_de(instalado, instalado && servico_rodando, pac_ligado, proxies_prontos),
        r.autostart == autostart,
        r.pac_ligado == pac_ligado,
        match log {
            Some(l) => {
                let q = quantidade_de(linhas(l@));
                &&& r.proxies_saudaveis as nat == if proxies_prontos && q == 0 {
                    1
                } else {
                    q
                }
                &&& match proxy_de(linhas(l@)) {
                    Some((e, g, v)) => r.proxy_em_uso matches Some(p) && p.endereco@ == e
                        && p.regiao@ == g && p.pais@.len() == 0 && p.latencia_ms as nat == v,
                    None => r.proxy_em_uso is None,
                }
            },
            None => r.proxies_saudaveis == (if proxies_prontos {
                1u32
            } else {
                0u32
            }) && r.proxy_em_uso is None,
        },
        match ultima_validacao_lida {
            Some(c) => match ultima_validacao(c@) {
                Some(v) => r.ultima_validacao_utc == Some(v as u64),
                None => r.ultima_validacao_utc is None,
            },
            None => r.ultima_validacao_utc is None,
        },
        r.atualizacao == atualizacao,
        r.erro_inicializacao == erro_inicializacao,
{
    let rodando = instalado && servico_rodando;
    let (mut quantidade, proxy) = match log {
        Some(l) => dados_do_log(l),
        None => (0, None),
    };
    if proxies_prontos && quantidade == 0 {
        quantidade = 1;
    }
    let estado = if !instalado || !rodando {
        Estado::Parado
    } else if !pac_ligado {
        Estado::Pausado
    } else if !proxies_prontos {
        Estado::SemProxies
    } else {
        Estado::Operacional
    };
    let ultima = match ultima_validacao_lida {
        Some(c) => ler_ultima_validacao_em(c),
        None => None,
    };
    Status {
        versao: texto_de(&caracteres(versao)),
        estado,
        autostart,
        pac_ligado,
        proxies_saudaveis: quantidade,
        proxy_em_uso: proxy,
        ultima_validacao_utc: ultima,
        atualizacao,
        erro_inicializacao,
    }
}

/// The answer to "verify now".
pub struct Verificacao {
    pub ok: bool,
    pub regiao_detectada: Option<String>,
    pub proxies_saudaveis: u32,
    pub mensagem: String,
}

pub open spec fn mensagem_de(e: Estado) -> Seq<char> {
    match e {
        Estado::Operacional => "O serviço e os proxies estão prontos."@,
        Estado::Pausado => "A correção está pausada."@,
        Estado::SemProxies => "O serviço está ligado, mas ainda procura proxies saudáveis."@,
        Estado::Parado => "O serviço não está respondendo."@,
    }
}

/// What "verify now" answers for a status: fine only when operational,
/// with the region of the proxy in use.
pub fn verificacao_do_status(atual: &Status) -> (r: Verificacao)
    ensures
        r.ok == (atual.estado == Estado::Operacional),
        r.mensagem@ == mensagem_de(atual.estado),
        r.proxies_saudaveis == atual.proxies_saudaveis,
        match atual.proxy_em_uso {
            Some(p) => r.regiao_detectada matches Some(g) && g@ == p.regiao@,
            None => r.regiao_detectada is None,
        },
{
    let regiao = match &atual.proxy_em_uso {
        Some(p) => Some(texto_de(&caracteres(p.regiao.as_str()))),
        None => None,
    };
    let (ok, mensagem) = match atual.estado {
        Estado::Operacional => (true, "O serviço e os proxies estão prontos."),
        Estado::Pausado => (false, "A correção está pausada."),
        Estado::SemProxies => (false, "O serviço está ligado, mas ainda procura proxies saudáveis."),
        Estado::Parado => (false, "O serviço não está respondendo."),
    };
    Verificacao {
        ok,
        regiao_detectada: regiao,
        proxies_saudaveis: atual.proxies_saudaveis,
        mensagem: texto_de(&caracteres(mensagem)),
    }
}

/// The answer while the service is still starting.
pub fn verificacao_iniciando() -> (r: Verificacao)
    ensures
        !r.ok,
        r.regiao_detectada is None,
        r.proxies_saudaveis == 0,
        r.mensagem@ == "O serviço ainda está iniciando. Aguarde alguns segundos e verifique de novo."@,
{
    Verificacao {
        ok: false,
        regiao_detectada: None,
        proxies_saudaveis: 0,
        mensagem: texto_de(
            &caracteres(
                "O serviço ainda está iniciando. Aguarde alguns segundos e verifique de novo.",
            ),
        ),
    }
}

/// The tooltip of the tray icon for a state the web page reports.
pub fn dica(estado: &str) -> (r: &'static str)
    ensures
        estado@ == "operacional"@ ==> r@ == "FOL-discord — funcionando"@,
        estado@ == "pausado"@ ==> r@ == "FOL-discord — pausado"@,
        estado@ == "sem_proxies"@ ==> r@ == "FOL-discord — procurando saída"@,
        estado@ == "inicializando"@ ==> r@ == "FOL-discord — preparando"@,
        estado@ != "operacional"@ && estado@ != "pausado"@ && estado@ != "sem_proxies"@
            && estado@ != "inicializando"@ ==> r@ == "FOL-discord — parado"@,
{
    let e = caracteres(estado);
    proof {
        reveal_strlit("operacional");
        reveal_strlit("pausado");
        reveal_strlit("sem_proxies");
        reveal_strlit("inicializando");
        assert("pausado"@[0] != "operacional"@[0]);
        assert("sem_proxies"@[0] != "operacional"@[0]);
        assert("sem_proxies"@[0] != "pausado"@[0]);
        assert("inicializando"@[0] != "operacional"@[0]);
        assert("inicializando"@[0] != "pausado"@[0]);
        assert("inicializando"@[0] != "sem_proxies"@[0]);
    }
    if iguais_str(&e, "operacional") {
        "FOL-discord — funcionando"
    } else if iguais_str(&e, "pausado") {
        "FOL-discord — pausado"
    } else if iguais_str(&e, "sem_proxies") {
        "FOL-discord — procurando saída"
    } else if iguais_str(&e, "inicializando") {
        "FOL-discord — preparando"
    } else {
        "FOL-discord — parado"
    }
}

/// The proxy setting points at the PAC, ignoring ASCII case.
pub fn pac_ativo(valor: Option<&str>, url: &str) -> (r: bool)
    ensures
        r == (valor matches Some(v) && iguais_sem_caixa(v@, url@)),
{
    match valor {
        Some(v) => iguais_ignorando_caixa(&caracteres(v), &caracteres(url)),
        None => false,
    }
}

/// The arguments the window starts the service's installation with.
pub fn argumentos_instalar(reiniciar_discord: bool, criar_run_legado: bool) -> (r: Vec<String>)
    ensures
        r@.len() == 1 + (if reiniciar_discord {
            0int
        } else {
            1int
        }) + (if criar_run_legado {
            0int
        } else {
            1int
        }),
        r@[0]@ == "instalar"@,
        !reiniciar_discord ==> r@[1]@ == "--sem-reiniciar"@,
        !criar_run_legado ==> r@[r@.len() - 1]@ == "--sem-autostart"@,
{
    let mut r: Vec<String> = Vec::new();
    r.push(texto_de(&caracteres("instalar")));
    if !reiniciar_discord {
        r.push(texto_de(&caracteres("--sem-reiniciar")));
    }
    if !criar_run_legado {
        r.push(texto_de(&caracteres("--sem-autostart")));
    }
    r
}

/// The service's output confirms that Discord was restarted.
pub fn discord_reiniciado(saida: &str) -> (r: bool)
    ensures
        r == crate::texto::contem(saida@, "Discord reiniciado"@),
{
    crate::texto::contem_trecho(&caracteres(saida), &caracteres("Discord reiniciado"))
}

// ---------------------------------------------------------------------------
// What the window and the service agree on
// ---------------------------------------------------------------------------

/// The window reads back the instant the service stamps in the last-validation file
/// (`crate::cli::conteudo_checagem`): decimal milliseconds and a line break.
pub proof fn lei_a_janela_le_o_carimbo_do_servico(instante: u64)
    ensures
        ultima_validacao(decimal(instante as nat) + "\n"@) == Some(instante as nat),
{
    let d = decimal(instante as nat);
    let s = d + "\n"@;
    crate::texto::lemma_decimal(instante as nat);
    reveal_strlit("\n");
    assert(s[0] == d[0]);
    assert(crate::texto::apara_inicio(s) == s);
    assert(s.drop_last() =~= d);
    assert(crate::texto::espaco(s.last()));
    assert(crate::texto::apara_fim(s) == crate::texto::apara_fim(d));
    assert(crate::texto::apara_fim(d) == d);
    assert(crate::texto::sem_mais(d) == d);
}

/// The options the window asks the service's installation for are the
/// ones the service's command line reads (`crate::cli::opcoes_instalar`).
pub proof fn lei_a_janela_e_o_servico_concordam_nas_opcoes(
    args: Seq<String>,
    reiniciar_discord: bool,
    criar_run_legado: bool,
)
    requires
        args.len() == 1 + (if reiniciar_discord {
            0int
        } else {
            1int
        }) + (if criar_run_legado {
            0int
        } else {
            1int
        }),
        args[0]@ == "instalar"@,
        !reiniciar_discord ==> args[1]@ == "--sem-reiniciar"@,
        !criar_run_legado ==> args[args.len() - 1]@ == "--sem-autostart"@,
    ensures
        crate::cli::tem_argumento(args, "--sem-reiniciar"@) == !reiniciar_discord,
        crate::cli::tem_argumento(args, "--sem-autostart"@) == !criar_run_legado,
{
    reveal_strlit("instalar");
    reveal_strlit("--sem-reiniciar");
    reveal_strlit("--sem-autostart");
    assert("instalar"@[0] != "--sem-reiniciar"@[0]);
    assert("instalar"@[0] != "--sem-autostart"@[0]);
    assert("--sem-reiniciar"@[6] != "--sem-autostart"@[6]);
    if !reiniciar_discord {
        assert(args[1]@ == "--sem-reiniciar"@);
    }
    if !criar_run_legado {
        assert(args[args.len() - 1]@ == "--sem-autostart"@);
    }
}

proof fn lemma_posicao_desde_em(t: Seq<char>, p: Seq<char>, i: int, k: int)
    requires
        0 <= i <= k,
        k + p.len() <= t.len(),
        t.subrange(k, k + p.len()) == p,
        forall|j: int| i <= j < k ==> #[trigger] t.subrange(j, j + p.len()) != p,
    ensures
        posicao_desde(t, p, i) == k,
    decreases k - i,
{
    if i < k {
        lemma_posicao_desde_em(t, p, i + 1, k);
    }
}

/// The first occurrence of `p` in `t` is at `k` when `p` is there and at no
/// position before.
proof fn lemma_posicao_em(t: Seq<char>, p: Seq<char>, k: int)
    requires
        0 <= k,
        k + p.len() <= t.len(),
        t.subrange(k, k + p.len()) == p,
        forall|j: int| 0 <= j < k ==> #[trigger] t.subrange(j, j + p.len()) != p,
    ensures
        posicao(t, p) == k,
{
    lemma_posicao_desde_em(t, p, 0, k);
}

/// The window reads the count of validated proxies from the line the
/// service logs after a refill (`crate::cli::linha_validados`).
pub proof fn lei_a_janela_le_a_contagem_do_servico(n: u64)
    requires
        n <= u32::MAX,
    ensures
        quantidade_na_linha(apara(decimal(n as nat) + SUFIXO_VALIDADOS@)) == n,
{
    let d = decimal(n as nat);
    let sufixo = SUFIXO_VALIDADOS@;
    let t = d + sufixo;
    crate::texto::lemma_decimal(n as nat);
    reveal_strlit(" proxies estrangeiros validados");
    assert(t[0] == d[0]);
    assert(crate::texto::apara_inicio(t) == t);
    assert(t.last() == 's');
    assert(crate::texto::apara_fim(t) == t);
    assert forall|j: int| 0 <= j < d.len() implies #[trigger] t.subrange(j, j + sufixo.len()) != sufixo by {
        assert(t.subrange(j, j + sufixo.len())[0] == d[j]);
        assert(crate::texto::digito(d[j]));
    }
    assert(t.subrange(d.len() as int, d.len() + sufixo.len() as int) =~= sufixo);
    lemma_posicao_em(t, sufixo, d.len() as int);
    assert(t.subrange(0, d.len() as int) =~= d);
    assert(crate::texto::apara_inicio(d) == d);
    assert(crate::texto::apara_fim(d) == d);
    assert(crate::texto::sem_mais(d) == d);
}

/// The window reads each route the service logs
/// (`crate::socks::linha_rota`) back as the same host, port and route, for
/// a host that is not empty.
pub proof fn lei_a_janela_le_as_rotas_do_servico(exterior: bool, host: Seq<char>, porta: u16)
    requires
        host.len() > 0,
    ensures
        rota_na_linha(apara(linha_rota_de(exterior, host, porta))) == Some(
            ConexaoV { host, porta, exterior },
        ),
{
    let d = decimal(porta as nat);
    crate::texto::lemma_decimal(porta as nat);
    reveal_strlit("exterior  ");
    reveal_strlit("direto    ");
    reveal_strlit(":");
    let prefixo = if exterior {
        PREFIXO_EXTERIOR@
    } else {
        PREFIXO_DIRETO@
    };
    let t = linha_rota_de(exterior, host, porta);
    assert(t =~= prefixo + (host + ":"@ + d));
    assert(t[0] == prefixo[0]);
    assert(crate::texto::apara_inicio(t) == t);
    assert(t.last() == d.last());
    assert(crate::texto::apara_fim(t) == t);
    let destino = host + ":"@ + d;
    assert(t.subrange(prefixo.len() as int, t.len() as int) =~= destino);
    assert(t.subrange(0, 10) =~= prefixo);
    if !exterior {
        assert(t.subrange(0, 10)[0] != PREFIXO_EXTERIOR@[0]);
    }
    assert forall|j: int| host.len() < j < destino.len() implies destino[j] != ':' by {
        assert(destino[j] == d[j - host.len() - 1]);
        assert(crate::texto::digito(d[j - host.len() - 1]));
    }
    crate::texto::lemma_indice_final_em(destino, ':', host.len() as int);
    assert(destino.subrange(0, host.len() as int) =~= host);
    assert(destino.subrange(host.len() + 1 as int, destino.len() as int) =~= d);
    assert(crate::texto::sem_mais(d) == d);
}

/// The window reads the proxy in use from the line the service logs for it
/// (`crate::pool::Upstream::linha_de_log`), for an address without spaces
/// and a region without `)`.
pub proof fn lei_a_janela_le_o_proxy_do_servico(endereco: Seq<char>, regiao: Seq<char>, ms: nat)
    requires
        endereco.len() > 0,
        forall|i: int| 0 <= i < endereco.len() ==> !crate::texto::espaco(#[trigger] endereco[i]),
        forall|i: int| 0 <= i < regiao.len() ==> #[trigger] regiao[i] != ')',
        ms <= u64::MAX,
    ensures
        proxy_na_linha(apara(crate::pool::linha_proxy_de(endereco, regiao, ms))) == Some(
            (endereco, regiao, ms),
        ),
{
    let d = decimal(ms);
    crate::texto::lemma_decimal(ms);
    reveal_strlit("  ");
    reveal_strlit(" (");
    reveal_strlit(") ");
    reveal_strlit("ms");
    let abre = " ("@;
    let fecha = ") "@;
    let linha = crate::pool::linha_proxy_de(endereco, regiao, ms);
    let t = endereco + abre + regiao + fecha + d + "ms"@;
    assert(linha =~= "  "@ + t);
    assert(crate::texto::apara_inicio(linha) == crate::texto::apara_inicio(t)) by {
        crate::texto::lemma_apara_inicio_passo(linha, 0);
        crate::texto::lemma_apara_inicio_passo(linha, 1);
        assert(linha.subrange(0, linha.len() as int) =~= linha);
        assert(linha.subrange(2, linha.len() as int) =~= t);
    }
    assert(t[0] == endereco[0]);
    assert(crate::texto::apara_inicio(t) == t);
    assert(t.last() == 's');
    assert(crate::texto::apara_fim(t) == t);
    assert(apara(linha) == t);
    assert forall|j: int| 0 <= j < endereco.len() implies #[trigger] t.subrange(j, j + 2) != abre by {
        assert(t.subrange(j, j + 2)[0] == endereco[j]);
    }
    assert(t.subrange(endereco.len() as int, endereco.len() + 2 as int) =~= abre);
    lemma_posicao_em(t, abre, endereco.len() as int);
    let resto = regiao + fecha + d + "ms"@;
    assert(t.subrange(0, endereco.len() as int) =~= endereco);
    assert(t.subrange(endereco.len() + 2 as int, t.len() as int) =~= resto);
    assert forall|j: int| 0 <= j < regiao.len() implies #[trigger] resto.subrange(j, j + 2) != fecha by {
        assert(resto.subrange(j, j + 2)[0] == regiao[j]);
    }
    assert(resto.subrange(regiao.len() as int, regiao.len() + 2 as int) =~= fecha);
    lemma_posicao_em(resto, fecha, regiao.len() as int);
    let latencia = d + "ms"@;
    assert(resto.subrange(0, regiao.len() as int) =~= regiao);
    assert(resto.subrange(regiao.len() + 2 as int, resto.len() as int) =~= latencia);
    assert(latencia.subrange(latencia.len() - 2, latencia.len() as int) =~= "ms"@);
    assert(latencia.subrange(0, latencia.len() - 2) =~= d);
    assert(crate::texto::apara_inicio(d) == d);
    assert(crate::texto::apara_fim(d) == d);
    assert(crate::texto::sem_mais(d) == d);
}

} // verus!
