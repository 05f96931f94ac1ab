//! The only marks left on a Windows system: the automatic proxy and the
//! autostart, both under HKCU, with no administrator and both removable; and
//! the service's folder in the user's `PATH`.
//!
//! This module decides what the registry values become; the caller reads and
//! writes the registry. The user's `PATH` is usually `REG_EXPAND_SZ` and holds
//! things like `%USERPROFILE%\bin`: it is read and written as raw UTF-16
//! bytes, so that its type and its variables survive.

use vstd::prelude::*;

use crate::caminhos::{juntado_windows, juntar_windows, pasta, pasta_de};
use crate::texto::{
    lemma_minusculas_iguais, minuscula, anexar, anexar_str, apara, apara_fim, apara_inicio, aparado, caracteres, dividir, iguais, iguais_ignorando_caixa,
    iguais_sem_caixa, partes, sem_final, sem_final_de, texto_de,
};
use crate::utf16::{codificado, codificar, decodificado, decodificar, lei_utf16_ida_e_volta, unidades};

verus! {

pub const NOME_SERVICO: &'static str = "fol-discord.exe";

/// The name of the value under `Run` that older versions wrote.
pub const NOME_RUN: &'static str = "FolDiscord";

pub const CHAVE_RUN: &'static str = "Software\\Microsoft\\Windows\\CurrentVersion\\Run";

/// The scheduled task that opens the window in the tray at logon.
pub const TAREFA_BANDEJA: &'static str = "FolDiscord.Bandeja";

/// Why a registry value was left alone.
#[derive(Debug, PartialEq, Eq, Structural)]
pub enum RecusaWindows {
    /// The `Run\FolDiscord` entry starts another program.
    AutostartDeOutroPrograma,
    /// The tray task could not be removed and is still registered.
    TarefaPermanece,
}

// ---------------------------------------------------------------------------
// Folders
// ---------------------------------------------------------------------------

/// `%LOCALAPPDATA%\FolDiscord`, or `.\FolDiscord` when the variable is not
/// set.
pub fn pasta_dados(localappdata: Option<&str>) -> (r: String)
    ensures
        r@ == juntado_windows(
            match localappdata {
                Some(b) => b@,
                None => "."@,
            },
            "FolDiscord"@,
        ),
{
    match localappdata {
        Some(b) => juntar_windows(b, "FolDiscord"),
        None => juntar_windows(".", "FolDiscord"),
    }
}

/// Where the service is installed, inside the data folder.
pub fn caminho_instalado(pasta_dados: &str) -> (r: String)
    ensures
        r@ == juntado_windows(pasta_dados@, NOME_SERVICO@),
{
    juntar_windows(pasta_dados, NOME_SERVICO)
}

// ---------------------------------------------------------------------------
// Registry strings as raw bytes
// ---------------------------------------------------------------------------

/// The little-endian code units of `b`, two bytes each; an odd last byte is
/// ignored (`chunks_exact(2)` and `u16::from_le_bytes`).
pub open spec fn palavras(b: Seq<u8>) -> Seq<u16> {
    Seq::new(b.len() / 2, |i: int| (b[2 * i] + 256 * b[2 * i + 1]) as u16)
}

/// The bytes of `u`, each unit little-endian (`u16::to_le_bytes`).
pub open spec fn bytes_le(u: Seq<u16>) -> Seq<u8> {
    Seq::new(
        2 * u.len(),
        |j: int|
            if j % 2 == 0 {
                (u[j / 2] % 256) as u8
            } else {
                (u[j / 2] / 256) as u8
            },
    )
}

/// Position of the first zero unit, or `u.len()`.
pub open spec fn primeiro_nulo(u: Seq<u16>) -> int
    decreases u.len(),
{
    if u.len() == 0 {
        0
    } else if u[0] == 0 {
        0
    } else {
        1 + primeiro_nulo(u.drop_first())
    }
}

/// The units before the first zero (`take_while(|c| c != 0)`).
pub open spec fn ate_nulo(u: Seq<u16>) -> Seq<u16> {
    u.subrange(0, primeiro_nulo(u))
}

/// The text a registry string value holds.
pub open spec fn texto_do_registro(b: Seq<u8>) -> Seq<char> {
    decodificado(ate_nulo(palavras(b)))
}

/// The bytes a registry string value gets for `s`: its UTF-16 units and a
/// terminating zero.
pub open spec fn registro_do_texto(s: Seq<char>) -> Seq<u8> {
    bytes_le(codificado(s).push(0))
}

proof fn lemma_primeiro_nulo(u: Seq<u16>)
    ensures
        0 <= primeiro_nulo(u) <= u.len(),
        primeiro_nulo(u) < u.len() ==> u[primeiro_nulo(u)] == 0,
        forall|j: int| 0 <= j < primeiro_nulo(u) ==> u[j] != 0,
    decreases u.len(),
{
    if u.len() > 0 && u[0] != 0 {
        lemma_primeiro_nulo(u.drop_first());
        assert forall|j: int| 0 <= j < primeiro_nulo(u) implies u[j] != 0 by {
            if j > 0 {
                assert(u[j] == u.drop_first()[j - 1]);
            }
        }
    }
}

proof fn lemma_primeiro_nulo_em(u: Seq<u16>, k: int)
    requires
        0 <= k <= u.len(),
        k < u.len() ==> u[k] == 0,
        forall|j: int| 0 <= j < k ==> u[j] != 0,
    ensures
        primeiro_nulo(u) == k,
    decreases u.len(),
{
    if u.len() > 0 && u[0] != 0 {
        assert forall|j: int| 0 <= j < k - 1 implies u.drop_first()[j] != 0 by {
            assert(u.drop_first()[j] == u[j + 1]);
        }
        lemma_primeiro_nulo_em(u.drop_first(), k - 1);
    }
}

proof fn lemma_palavras_bytes(u: Seq<u16>)
    ensures
        palavras(bytes_le(u)) == u,
{
    let b = bytes_le(u);
    assert(b.len() / 2 == u.len()) by (nonlinear_arith)
        requires
            b.len() == 2 * u.len(),
    ;
    assert forall|i: int| 0 <= i < u.len() implies #[trigger] palavras(b)[i] == u[i] by {
        assert((2 * i) % 2 == 0 && (2 * i) / 2 == i) by (nonlinear_arith);
        assert((2 * i + 1) % 2 == 1 && (2 * i + 1) / 2 == i) by (nonlinear_arith);
        let x = u[i];
        assert((x % 256) as u8 + 256 * ((x / 256) as u8) == x) by (nonlinear_arith)
            requires
                0 <= x < 65536,
        ;
    }
    assert(palavras(b) =~= u);
}

/// Units of a character that is not NUL are never zero.
proof fn lemma_unidades_sem_nulo(s: Seq<char>)
    requires
        forall|i: int| 0 <= i < s.len() ==> s[i] != '\0',
    ensures
        forall|j: int| 0 <= j < codificado(s).len() ==> codificado(s)[j] != 0,
    decreases s.len(),
{
    if s.len() > 0 {
        lemma_unidades_sem_nulo(s.drop_last());
        let c = s.last();
        assert(c != '\0');
        let v = c as u32;
        crate::utf16::lemma_char_escalar(c);
        assert(v != 0) by {
            vstd::utf8::char_u32_cast(c, v);
            if v == 0 {
                assert((0u32 as char) == '\0');
            }
        }
        assert forall|j: int| 0 <= j < codificado(s).len() implies codificado(s)[j] != 0 by {
            let a = codificado(s.drop_last());
            assert(codificado(s) == a + unidades(c));
            if j >= a.len() {
                if v >= 0x10000 {
                    assert(0 <= (v - 0x10000) / 1024 < 1024) by (nonlinear_arith)
                        requires
                            0x10000 <= v <= 0x10FFFF,
                    ;
                }
            }
        }
    }
}

/// Reading back what was written gives the text back, for a text without
/// NUL characters (the first NUL ends a registry string).
pub proof fn lei_registro_ida_e_volta(s: Seq<char>)
    requires
        forall|i: int| 0 <= i < s.len() ==> s[i] != '\0',
    ensures
        texto_do_registro(registro_do_texto(s)) == s,
{
    let u = codificado(s).push(0);
    lemma_palavras_bytes(u);
    lemma_unidades_sem_nulo(s);
    lemma_primeiro_nulo_em(u, codificado(s).len() as int);
    assert(ate_nulo(u) =~= codificado(s));
    lei_utf16_ida_e_volta(s);
}

pub fn palavra_em(bytes: &[u8], i: usize) -> (w: u16)
    requires
        i < bytes@.len() / 2,
    ensures
        w == palavras(bytes@)[i as int],
{
    assert(2 * i + 1 < bytes@.len()) by (nonlinear_arith)
        requires
            i < bytes@.len() / 2,
    ;
    let tamanho = bytes.len();
    assert(2 * i + 1 < tamanho);
    (bytes[2 * i] as u16) + (bytes[2 * i + 1] as u16) * 256
}

/// The text of a registry string value given as raw bytes.
pub fn utf16_para_texto(bytes: &[u8]) -> (r: String)
    ensures
        r@ == texto_do_registro(bytes@),
{
    let ghost p = palavras(bytes@);
    let mut u: Vec<u16> = Vec::new();
    let n = bytes.len() / 2;
    let mut i: usize = 0;
    while i < n && palavra_em(bytes, i) != 0
        invariant
            n == bytes@.len() / 2,
            p == palavras(bytes@),
            i <= n,
            u@ == p.subrange(0, i as int),
            forall|j: int| 0 <= j < i ==> p[j] != 0,
        decreases n - i,
    {
        let w = palavra_em(bytes, i);
        u.push(w);
        assert(u@ =~= p.subrange(0, i + 1));
        i = i + 1;
    }
    proof {
        lemma_primeiro_nulo_em(p, i as int);
    }
    let c = decodificar(&u);
    texto_de(&c)
}

/// The raw bytes of a registry string value holding `s`.
pub fn texto_para_utf16(s: &str) -> (r: Vec<u8>)
    ensures
        r@ == registro_do_texto(s@),
{
    let chars = caracteres(s);
    let mut u = codificar(&chars);
    u.push(0);
    let ghost alvo = registro_do_texto(s@);
    let mut r: Vec<u8> = Vec::new();
    let mut i: usize = 0;
    while i < u.len()
        invariant
            u@ == codificado(s@).push(0),
            alvo == bytes_le(u@),
            i <= u@.len(),
            r@ == alvo.subrange(0, 2 * i),
        decreases u@.len() - i,
    {
        let w = u[i];
        assert((2 * i) % 2 == 0 && (2 * i) / 2 == i) by (nonlinear_arith);
        assert((2 * i + 1) % 2 == 1 && (2 * i + 1) / 2 == i) by (nonlinear_arith);
        r.push((w % 256) as u8);
        r.push((w / 256) as u8);
        assert(r@ =~= alvo.subrange(0, 2 * (i + 1)));
        i = i + 1;
    }
    assert(r@ =~= alvo);
    r
}

// ---------------------------------------------------------------------------
// The user's PATH
// ---------------------------------------------------------------------------

/// An entry of the `PATH` names the folder `dir`: trimmed, without the
/// backslashes that end them, and ignoring ASCII case.
pub open spec fn nomeia(entrada: Seq<char>, dir: Seq<char>) -> bool {
    iguais_sem_caixa(sem_final(apara(entrada), '\\'), sem_final(dir, '\\'))
}

/// Some `;`-separated entry of `path` names `dir`.
pub open spec fn no_path(path: Seq<char>, dir: Seq<char>) -> bool {
    exists|i: int| 0 <= i < partes(path, ';').len() && nomeia(#[trigger] partes(path, ';')[i], dir)
}

/// `path` with `dir` appended, with a `;` between them unless `path` is empty
/// or already ends in one.
pub open spec fn acrescentado(path: Seq<char>, dir: Seq<char>) -> Seq<char> {
    if path.len() > 0 && path.last() != ';' {
        path + seq![';'] + dir
    } else {
        path + dir
    }
}

/// The entries that uninstalling removes: those that, trimmed, equal `dir`
/// with or without its final backslashes, ignoring ASCII case.
pub open spec fn sai_do_path(entrada: Seq<char>, dir: Seq<char>) -> bool {
    iguais_sem_caixa(apara(entrada), sem_final(dir, '\\')) || iguais_sem_caixa(apara(entrada), dir)
}

/// The entries of `ps` that stay, in order.
pub open spec fn restantes(ps: Seq<Seq<char>>, dir: Seq<char>) -> Seq<Seq<char>>
    decreases ps.len(),
{
    if ps.len() == 0 {
        seq![]
    } else {
        let r = restantes(ps.drop_last(), dir);
        if sai_do_path(ps.last(), dir) {
            r
        } else {
            r.push(ps.last())
        }
    }
}

/// The entries joined by `;`.
pub open spec fn unidas(ps: Seq<Seq<char>>) -> Seq<char>
    decreases ps.len(),
{
    if ps.len() == 0 {
        seq![]
    } else if ps.len() == 1 {
        ps[0]
    } else {
        unidas(ps.drop_last()) + seq![';'] + ps.last()
    }
}

/// `path` without the entries that uninstalling removes, joined again.
pub open spec fn path_sem(path: Seq<char>, dir: Seq<char>) -> Seq<char> {
    unidas(restantes(partes(path, ';'), dir))
}

/// Whether the folder `dir` is already in the `PATH` value `path`.
pub fn esta_no_path(path: &str, dir: &str) -> (r: bool)
    ensures
        r == no_path(path@, dir@),
{
    let pc = caracteres(path);
    let ps = dividir(&pc, ';');
    let dc = caracteres(dir);
    let alvo = sem_final_de(&dc, '\\');
    let mut i: usize = 0;
    while i < ps.len()
        invariant
            ps@.len() == partes(path@, ';').len(),
            forall|k: int| 0 <= k < ps@.len() ==> #[trigger] ps@[k]@ == partes(path@, ';')[k],
            alvo@ == sem_final(dir@, '\\'),
            i <= ps@.len(),
            forall|k: int| 0 <= k < i ==> !nomeia(#[trigger] partes(path@, ';')[k], dir@),
        decreases ps@.len() - i,
    {
        let e = sem_final_de(&aparado(&ps[i]), '\\');
        if iguais_ignorando_caixa(&e, &alvo) {
            assert(nomeia(partes(path@, ';')[i as int], dir@));
            return true;
        }
        i = i + 1;
    }
    false
}

/// Adding the folder `dir` to the `PATH` value `atual` (empty when there is
/// none): the value to write, or `None` when `dir` is already there.
pub fn adicionar_ao_path(atual: &str, dir: &str) -> (r: Option<String>)
    ensures
        no_path(atual@, dir@) ==> r is None,
        !no_path(atual@, dir@) ==> (r matches Some(n) && n@ == acrescentado(atual@, dir@)),
{
    if esta_no_path(atual, dir) {
        return None;
    }
    let mut novo = caracteres(atual);
    if novo.len() > 0 && novo[novo.len() - 1] != ';' {
        novo.push(';');
    }
    anexar_str(&mut novo, dir);
    assert(novo@ =~= acrescentado(atual@, dir@));
    Some(texto_de(&novo))
}

/// Removing the folder `dir` from the `PATH` value `atual`: the value to
/// write, or `None` when nothing changes.
pub fn remover_do_path(atual: &str, dir: &str) -> (r: Option<String>)
    ensures
        path_sem(atual@, dir@) == atual@ ==> r is None,
        path_sem(atual@, dir@) != atual@ ==> (r matches Some(n) && n@ == path_sem(atual@, dir@)),
{
    let pc = caracteres(atual);
    let ps = dividir(&pc, ';');
    let dc = caracteres(dir);
    let sem_barra = sem_final_de(&dc, '\\');
    let ghost todas = partes(atual@, ';');
    let mut novo: Vec<char> = Vec::new();
    let mut ficaram: usize = 0;
    let mut i: usize = 0;
    while i < ps.len()
        invariant
            ps@.len() == todas.len(),
            todas == partes(atual@, ';'),
            forall|k: int| 0 <= k < ps@.len() ==> #[trigger] ps@[k]@ == todas[k],
            sem_barra@ == sem_final(dir@, '\\'),
            dc@ == dir@,
            i <= ps@.len(),
            ficaram as int == restantes(todas.take(i as int), dir@).len(),
            ficaram <= i,
            novo@ == unidas(restantes(todas.take(i as int), dir@)),
        decreases ps@.len() - i,
    {
        let e = aparado(&ps[i]);
        let sai = iguais_ignorando_caixa(&e, &sem_barra) || iguais_ignorando_caixa(&e, &dc);
        let ghost antes = restantes(todas.take(i as int), dir@);
        assert(todas.take(i + 1).drop_last() =~= todas.take(i as int));
        assert(todas.take(i + 1).last() == todas[i as int]);
        if !sai {
            if ficaram > 0 {
                novo.push(';');
            }
            anexar(&mut novo, &ps[i]);
            assert(antes.push(todas[i as int]).drop_last() =~= antes);
            assert(novo@ =~= unidas(antes.push(todas[i as int])));
            ficaram = ficaram + 1;
        }
        i = i + 1;
    }
    assert(todas.take(todas.len() as int) =~= todas);
    if iguais(&novo, &pc) {
        None
    } else {
        Some(texto_de(&novo))
    }
}

/// The folder is in the `PATH` value, if there is one.
pub fn path_ativo(atual: Option<&str>, dir: &str) -> (r: bool)
    ensures
        r == (atual matches Some(p) && no_path(p@, dir@)),
{
    match atual {
        Some(p) => esta_no_path(p, dir),
        None => false,
    }
}

/// The folder that goes in the `PATH` for the service at `servico`: its
/// parent, or the path itself when it has none.
pub open spec fn pasta_do_servico(servico: Seq<char>) -> Seq<char> {
    match pasta(servico) {
        Some(p) => p,
        None => servico,
    }
}

fn pasta_do_servico_de(servico: &str) -> (r: String)
    ensures
        r@ == pasta_do_servico(servico@),
{
    match pasta_de(servico) {
        Some(p) => p,
        None => texto_de(&caracteres(servico)),
    }
}

/// Registering the command line: the `PATH` value to write so that the
/// service's folder is in it, or `None` when it already is.
pub fn registrar_cli(servico: &str, path_atual: &str) -> (r: Option<String>)
    ensures
        no_path(path_atual@, pasta_do_servico(servico@)) ==> r is None,
        !no_path(path_atual@, pasta_do_servico(servico@)) ==> (r matches Some(n) && n@
            == acrescentado(path_atual@, pasta_do_servico(servico@))),
{
    let dir = pasta_do_servico_de(servico);
    adicionar_ao_path(path_atual, &dir)
}

/// Unregistering the command line: the `PATH` value to write without the
/// service's folder, or `None` when nothing changes.
pub fn remover_cli(servico: &str, path_atual: &str) -> (r: Option<String>)
    ensures
        path_sem(path_atual@, pasta_do_servico(servico@)) == path_atual@ ==> r is None,
        path_sem(path_atual@, pasta_do_servico(servico@)) != path_atual@ ==> (r matches Some(n)
            && n@ == path_sem(path_atual@, pasta_do_servico(servico@))),
{
    let dir = pasta_do_servico_de(servico);
    remover_do_path(path_atual, &dir)
}

/// The service's folder is in the `PATH` value, if there is one.
pub fn cli_registrada(servico: &str, path_atual: Option<&str>) -> (r: bool)
    ensures
        r == (path_atual matches Some(p) && no_path(p@, pasta_do_servico(servico@))),
{
    let dir = pasta_do_servico_de(servico);
    path_ativo(path_atual, &dir)
}

// ---------------------------------------------------------------------------
// The automatic proxy
// ---------------------------------------------------------------------------

/// The two values under `Internet Settings` this module manages:
/// `AutoConfigURL` and the backup of what it held before.
pub struct ConfigInternet {
    pub url: Option<String>,
    pub backup: Option<String>,
}

pub struct ConfigInternetV {
    pub url: Option<Seq<char>>,
    pub backup: Option<Seq<char>>,
}

pub open spec fn vista(o: Option<String>) -> Option<Seq<char>> {
    match o {
        Some(t) => Some(t@),
        None => None,
    }
}

impl View for ConfigInternet {
    type V = ConfigInternetV;

    open spec fn view(&self) -> ConfigInternetV {
        ConfigInternetV { url: vista(self.url), backup: vista(self.backup) }
    }
}

/// After activating: `AutoConfigURL` is our PAC; a previous, different value
/// is kept as the backup, unless a backup is already there.
pub open spec fn apos_ativar(c: ConfigInternetV, url: Seq<char>) -> ConfigInternetV {
    ConfigInternetV {
        url: Some(url),
        backup: match c.url {
            Some(anterior) => if anterior != url && c.backup is None {
                Some(anterior)
            } else {
                c.backup
            },
            None => c.backup,
        },
    }
}

/// After deactivating: the backup goes back to `AutoConfigURL` and is
/// deleted; without a backup, `AutoConfigURL` is deleted.
pub open spec fn apos_desativar(c: ConfigInternetV) -> ConfigInternetV {
    match c.backup {
        Some(b) => ConfigInternetV { url: Some(b), backup: None },
        None => ConfigInternetV { url: None, backup: None },
    }
}

fn copia_opcional(o: &Option<String>) -> (r: Option<String>)
    ensures
        vista(r) == vista(*o),
{
    match o {
        Some(t) => Some(texto_de(&caracteres(t.as_str()))),
        None => None,
    }
}

/// Points Windows' automatic proxy at our PAC, keeping the previous value so
/// that uninstalling can give it back.
pub fn ativar_pac(atual: &ConfigInternet, url: &str) -> (r: ConfigInternet)
    ensures
        r@ == apos_ativar(atual@, url@),
{
    let backup = match &atual.url {
        Some(anterior) => {
            let a = caracteres(anterior.as_str());
            let u = caracteres(url);
            if !iguais(&a, &u) && atual.backup.is_none() {
                Some(texto_de(&a))
            } else {
                copia_opcional(&atual.backup)
            }
        },
        None => copia_opcional(&atual.backup),
    };
    ConfigInternet { url: Some(texto_de(&caracteres(url))), backup }
}

/// Gives back the automatic proxy that was there before ours.
pub fn desativar_pac(atual: &ConfigInternet) -> (r: ConfigInternet)
    ensures
        r@ == apos_desativar(atual@),
{
    match &atual.backup {
        Some(b) => ConfigInternet { url: Some(texto_de(&caracteres(b.as_str()))), backup: None },
        None => ConfigInternet { url: None, backup: None },
    }
}

/// `AutoConfigURL` is exactly our PAC.
pub fn pac_ativo(atual: Option<&str>, url: &str) -> (r: bool)
    ensures
        r == (atual matches Some(v) && v@ == url@),
{
    match atual {
        Some(v) => iguais(&caracteres(v), &caracteres(url)),
        None => false,
    }
}

/// Uninstalling gives back the automatic proxy that was there before
/// installing, when it was not already ours and no backup was left over.
pub proof fn lei_desativar_devolve_o_proxy_anterior(c: ConfigInternetV, url: Seq<char>)
    requires
        c.backup is None,
        c.url != Some(url),
    ensures
        apos_desativar(apos_ativar(c, url)) == c,
{
}

/// Activating keeps in the backup only what the automatic proxy held before
/// it, and never our own PAC: an existing backup is left alone; otherwise a
/// previous value other than ours is saved, and nothing else is. So
/// installing again over our own PAC and then uninstalling leaves no
/// automatic proxy behind.
pub proof fn lei_ativar_nao_guarda_o_proprio_pac(c: ConfigInternetV, url: Seq<char>)
    ensures
        c.backup is Some ==> apos_ativar(c, url).backup == c.backup,
        c.backup is None && c.url is Some && c.url != Some(url) ==> apos_ativar(c, url).backup == c.url,
        c.backup is None && (c.url is None || c.url == Some(url)) ==> apos_ativar(c, url).backup is None,
        apos_ativar(c, url).backup matches Some(x) ==> x != url || c.backup == Some(x),
        c.backup is None && c.url == Some(url) ==> apos_desativar(apos_ativar(c, url)).url is None,
{
}

/// After activating, the automatic proxy is our PAC.
pub proof fn lei_ativar_liga_o_pac(c: ConfigInternetV, url: Seq<char>)
    ensures
        apos_ativar(c, url).url == Some(url),
{
}

// ---------------------------------------------------------------------------
// Autostart
// ---------------------------------------------------------------------------

/// The `Run` value that starts the service: `"<servico>" rodar`.
pub open spec fn valor_run(servico: Seq<char>) -> Seq<char> {
    "\""@ + servico + "\" rodar"@
}

/// A `Run` value starts our service: trimmed, it is the value we write,
/// ignoring ASCII case.
pub open spec fn do_fol(valor: Seq<char>, servico: Seq<char>) -> bool {
    iguais_sem_caixa(apara(valor), valor_run(servico))
}

/// The `Run` value for the service at `servico`.
pub fn ativar_autostart(servico: &str) -> (r: String)
    ensures
        r@ == valor_run(servico@),
{
    let mut v = caracteres("\"");
    anexar_str(&mut v, servico);
    anexar_str(&mut v, "\" rodar");
    assert(v@ =~= valor_run(servico@));
    texto_de(&v)
}

/// Whether the `Run` value `valor` starts the service at `servico`.
pub fn entrada_run_e_do_fol(valor: &str, servico: &str) -> (r: bool)
    ensures
        r == do_fol(valor@, servico@),
{
    let v = aparado(&caracteres(valor));
    let esperado = ativar_autostart(servico);
    iguais_ignorando_caixa(&v, &caracteres(esperado.as_str()))
}

/// Refuses when `Run\FolDiscord` exists and starts another program.
pub fn validar_autostart_do_fol(valor: Option<&str>, servico: &str) -> (r: Result<(), RecusaWindows>)
    ensures
        r is Err <==> (valor matches Some(v) && !do_fol(v@, servico@)),
        r matches Err(e) ==> e == RecusaWindows::AutostartDeOutroPrograma,
{
    match valor {
        Some(v) => if entrada_run_e_do_fol(v, servico) {
            Ok(())
        } else {
            Err(RecusaWindows::AutostartDeOutroPrograma)
        },
        None => Ok(()),
    }
}

/// Removing the autostart: whether the `Run` value is to be deleted (it is
/// there and it is ours), or the refusal when it starts another program.
pub fn desativar_autostart(valor: Option<&str>, servico: &str) -> (r: Result<bool, RecusaWindows>)
    ensures
        valor is None ==> r == Ok::<bool, RecusaWindows>(false),
        valor matches Some(v) && do_fol(v@, servico@) ==> r == Ok::<bool, RecusaWindows>(true),
        valor matches Some(v) && !do_fol(v@, servico@) ==> r == Err::<bool, RecusaWindows>(
            RecusaWindows::AutostartDeOutroPrograma,
        ),
{
    match valor {
        Some(v) => if entrada_run_e_do_fol(v, servico) {
            Ok(true)
        } else {
            Err(RecusaWindows::AutostartDeOutroPrograma)
        },
        None => Ok(false),
    }
}

/// Removing the tray task succeeded, or the task is not there any more.
pub fn resultado_remocao_da_tarefa(removida: bool, ainda_existe: bool) -> (r: Result<
    (),
    RecusaWindows,
>)
    ensures
        r is Ok <==> (removida || !ainda_existe),
        r matches Err(e) ==> e == RecusaWindows::TarefaPermanece,
{
    if removida || !ainda_existe {
        Ok(())
    } else {
        Err(RecusaWindows::TarefaPermanece)
    }
}

/// The autostart is on when the `Run` value exists.
pub fn autostart_ativo(valor: Option<&str>) -> (r: bool)
    ensures
        r == valor is Some,
{
    valor.is_some()
}

/// What removing the autostart touches: the command that deletes the tray
/// task, and the `Run` value of older versions.
pub fn comandos_de_remocao_autostart() -> (r: Vec<String>)
    ensures
        r@.len() == 2,
        r@[0]@ == "schtasks /delete /tn "@ + TAREFA_BANDEJA@ + " /f"@,
        r@[1]@ == "HKCU\\"@ + CHAVE_RUN@ + "\\"@ + NOME_RUN@,
{
    let mut a = caracteres("schtasks /delete /tn ");
    anexar_str(&mut a, TAREFA_BANDEJA);
    anexar_str(&mut a, " /f");
    let mut b = caracteres("HKCU\\");
    anexar_str(&mut b, CHAVE_RUN);
    anexar_str(&mut b, "\\");
    anexar_str(&mut b, NOME_RUN);
    let mut r: Vec<String> = Vec::new();
    r.push(texto_de(&a));
    r.push(texto_de(&b));
    r
}

/// The value this module writes under `Run` is recognised as ours.
pub proof fn lei_autostart_escrito_e_do_fol(servico: Seq<char>)
    ensures
        do_fol(valor_run(servico), servico),
{
    let v = valor_run(servico);
    reveal_strlit("\"");
    reveal_strlit("\" rodar");
    assert(v[0] == '"');
    assert(v.last() == 'r');
    assert(apara_inicio(v) == v);
    assert(apara_fim(v) == v);
}


// ---------------------------------------------------------------------------
// Uninstalling gives the PATH back
// ---------------------------------------------------------------------------

proof fn lemma_minuscula_barra(c: char)
    ensures
        (minuscula(c) == '\\') <==> (c == '\\'),
{
    if 'A' <= c && c <= 'Z' {
        assert(((c as u32) + 32) as char != '\\') by {
            assert('a' as u32 == 97);
            vstd::utf8::char_u32_cast(c, c as u32);
        }
    }
}

/// Equal up to ASCII case, they stay so once the final backslashes go.
proof fn lemma_sem_barra_iguais(a: Seq<char>, b: Seq<char>)
    requires
        iguais_sem_caixa(a, b),
    ensures
        iguais_sem_caixa(sem_final(a, '\\'), sem_final(b, '\\')),
    decreases a.len(),
{
    lemma_minusculas_iguais(a, b);
    if a.len() > 0 {
        let n = a.len() - 1;
        assert(minuscula(a[n]) == minuscula(b[n]));
        lemma_minuscula_barra(a[n]);
        lemma_minuscula_barra(b[n]);
        if a.last() == '\\' {
            assert(b.last() == '\\');
            lemma_minusculas_iguais(a.drop_last(), b.drop_last());
            assert forall|i: int| 0 <= i < a.drop_last().len() implies minuscula(
                #[trigger] a.drop_last()[i],
            ) == minuscula(b.drop_last()[i]) by {
                assert(minuscula(a[i]) == minuscula(b[i]));
            }
            lemma_sem_barra_iguais(a.drop_last(), b.drop_last());
        } else {
            assert(b.last() != '\\');
        }
    }
}

proof fn lemma_sem_final_idempotente(s: Seq<char>, c: char)
    ensures
        sem_final(sem_final(s, c), c) == sem_final(s, c),
    decreases s.len(),
{
    if s.len() > 0 && s.last() == c {
        lemma_sem_final_idempotente(s.drop_last(), c);
    }
}

/// An entry that uninstalling would remove names the folder.
proof fn lemma_sai_nomeia(p: Seq<char>, dir: Seq<char>)
    requires
        sai_do_path(p, dir),
    ensures
        nomeia(p, dir),
{
    if iguais_sem_caixa(apara(p), sem_final(dir, '\\')) {
        lemma_sem_barra_iguais(apara(p), sem_final(dir, '\\'));
        lemma_sem_final_idempotente(dir, '\\');
    } else {
        lemma_sem_barra_iguais(apara(p), dir);
    }
}

proof fn lemma_partes_sem_separador(y: Seq<char>)
    requires
        !y.contains(';'),
    ensures
        partes(y, ';') == seq![y],
{
    crate::texto::lemma_indice(y, ';');
    if crate::texto::indice(y, ';') < y.len() {
        assert(y[crate::texto::indice(y, ';')] == ';');
    }
}

/// Splitting at a separator between `x` and `y`.
proof fn lemma_partes_juntas(x: Seq<char>, y: Seq<char>)
    ensures
        partes(x + seq![';'] + y, ';') == partes(x, ';') + partes(y, ';'),
    decreases x.len(),
{
    let t = x + seq![';'] + y;
    crate::texto::lemma_indice(x, ';');
    let i = crate::texto::indice(x, ';');
    assert forall|j: int| 0 <= j < i implies t[j] != ';' by {
        assert(t[j] == x[j]);
    }
    if i < x.len() {
        crate::texto::lemma_indice_em(t, ';', i);
        let resto = x.subrange(i + 1, x.len() as int);
        assert(t.subrange(0, i) =~= x.subrange(0, i));
        assert(t.subrange(i + 1, t.len() as int) =~= resto + seq![';'] + y);
        lemma_partes_juntas(resto, y);
        assert(partes(t, ';') =~= partes(x, ';') + partes(y, ';'));
    } else {
        crate::texto::lemma_indice_em(t, ';', x.len() as int);
        assert(t.subrange(0, x.len() as int) =~= x);
        assert(t.subrange(x.len() + 1 as int, t.len() as int) =~= y);
        assert(partes(x, ';') == seq![x]);
        assert(partes(t, ';') =~= partes(x, ';') + partes(y, ';'));
    }
}

proof fn lemma_unidas_inicio(a: Seq<char>, ps: Seq<Seq<char>>)
    requires
        ps.len() > 0,
    ensures
        unidas(seq![a] + ps) == a + seq![';'] + unidas(ps),
    decreases ps.len(),
{
    let t = seq![a] + ps;
    if ps.len() == 1 {
        assert(t.drop_last() =~= seq![a]);
        assert(t.last() == ps[0]);
        assert(unidas(seq![a]) == a);
        assert(unidas(ps) == ps[0]);
        assert(unidas(t) == unidas(t.drop_last()) + seq![';'] + t.last());
        assert(unidas(t) =~= a + seq![';'] + unidas(ps));
    } else {
        assert(t.drop_last() =~= seq![a] + ps.drop_last());
        lemma_unidas_inicio(a, ps.drop_last());
        assert(t.last() == ps.last());
        assert(unidas(t) == unidas(t.drop_last()) + seq![';'] + t.last());
        assert(unidas(ps) == unidas(ps.drop_last()) + seq![';'] + ps.last());
        assert(unidas(t) =~= a + seq![';'] + unidas(ps));
    }
}

proof fn lemma_partes_nao_vazias(x: Seq<char>)
    ensures
        partes(x, ';').len() > 0,
    decreases x.len(),
{
    crate::texto::lemma_indice(x, ';');
    let i = crate::texto::indice(x, ';');
    if i < x.len() {
        lemma_partes_nao_vazias(x.subrange(i + 1, x.len() as int));
    }
}

/// Joining what was split gives the text back.
proof fn lemma_unidas_partes(x: Seq<char>)
    ensures
        unidas(partes(x, ';')) == x,
    decreases x.len(),
{
    crate::texto::lemma_indice(x, ';');
    let i = crate::texto::indice(x, ';');
    if i < x.len() {
        let resto = x.subrange(i + 1, x.len() as int);
        lemma_unidas_partes(resto);
        lemma_partes_nao_vazias(resto);
        lemma_unidas_inicio(x.subrange(0, i), partes(resto, ';'));
        assert(x =~= x.subrange(0, i) + seq![';'] + resto);
    }
}

/// Entries that nothing removes all stay.
proof fn lemma_restantes_todas(ps: Seq<Seq<char>>, dir: Seq<char>)
    requires
        forall|i: int| 0 <= i < ps.len() ==> !sai_do_path(#[trigger] ps[i], dir),
    ensures
        restantes(ps, dir) == ps,
    decreases ps.len(),
{
    if ps.len() > 0 {
        assert(!sai_do_path(ps[ps.len() - 1], dir));
        lemma_restantes_todas(ps.drop_last(), dir);
        assert(ps.drop_last().push(ps.last()) =~= ps);
    }
}

/// Uninstalling removes exactly what installing added: the `PATH` comes
/// back as it was, for a folder that was not in it, is trimmed and holds no
/// `;`, and a `PATH` that does not end with `;`.
pub proof fn lei_remover_devolve_o_path(atual: Seq<char>, dir: Seq<char>)
    requires
        !no_path(atual, dir),
        atual.len() == 0 || atual.last() != ';',
        !dir.contains(';'),
        apara(dir) == dir,
    ensures
        path_sem(acrescentado(atual, dir), dir) == atual,
{
    lemma_minusculas_iguais(dir, dir);
    assert(sai_do_path(dir, dir));
    lemma_partes_sem_separador(dir);
    if atual.len() == 0 {
        assert(acrescentado(atual, dir) =~= dir);
        assert(seq![dir].drop_last() =~= Seq::<Seq<char>>::empty());
        assert(seq![dir].last() == dir);
        assert(restantes(Seq::<Seq<char>>::empty(), dir) == Seq::<Seq<char>>::empty());
        assert(restantes(seq![dir], dir) == restantes(Seq::<Seq<char>>::empty(), dir));
        assert(atual =~= Seq::<char>::empty());
    } else {
        let ps = partes(atual, ';');
        lemma_partes_juntas(atual, dir);
        assert(acrescentado(atual, dir) == atual + seq![';'] + dir);
        let todas = ps + seq![dir];
        assert(todas.drop_last() =~= ps);
        assert forall|i: int| 0 <= i < ps.len() implies !sai_do_path(#[trigger] ps[i], dir) by {
            if sai_do_path(ps[i], dir) {
                lemma_sai_nomeia(ps[i], dir);
            }
        }
        lemma_restantes_todas(ps, dir);
        lemma_unidas_partes(atual);
    }
}

} // verus!
