//! Linux integration without depending on a particular desktop.
//!
//! The core lives in the user's profile. The Discord launcher gets the PAC by
//! a Chromium argument, and autostart follows the XDG specification. This
//! module computes the paths and the files' contents, and decides whether a
//! file may be written or removed; the caller reads and writes the disk.

use vstd::prelude::*;

use crate::caminhos::{juntado, juntar_chars};
use crate::texto::{
    anexar, anexar_str, apara, aparado, caracteres, decimal, escrever_decimal, iguais, iguais_str,
    linhas, dividir_linhas, texto_de,
};

verus! {

pub const NOME_SERVICO: &'static str = "fol-discord";

/// The line that marks a file as written by this program.
pub const ASSINATURA: &'static str = "X-FOL-Discord-Managed=true";

/// The environment the paths are computed from: the XDG variables, `HOME`,
/// the system's temporary folder and the effective user id.
pub struct Ambiente {
    pub home: Option<String>,
    pub xdg_state_home: Option<String>,
    pub xdg_data_home: Option<String>,
    pub xdg_config_home: Option<String>,
    pub temp_dir: String,
    pub euid: u32,
}

/// Why a file of the desktop was left alone.
#[derive(Debug)]
pub enum RecusaLinux {
    /// A file exists at the path and does not carry the signature.
    NaoGerenciado(String),
    /// The CLI link points to another program.
    AtalhoDeOutroPrograma(String),
    /// Something that is not our link occupies the CLI path.
    AtalhoOcupado(String),
}

/// A variable counts only when set and non-empty.
pub open spec fn variavel(v: Option<String>) -> Option<Seq<char>> {
    match v {
        Some(s) => if s@.len() > 0 {
            Some(s@)
        } else {
            None
        },
        None => None,
    }
}

pub open spec fn ou_senao(v: Option<Seq<char>>, padrao: Seq<char>) -> Seq<char> {
    match v {
        Some(s) => s,
        None => padrao,
    }
}

pub open spec fn home_de(a: Ambiente) -> Seq<char> {
    ou_senao(variavel(a.home), juntado(a.temp_dir@, "fol-discord-"@ + decimal(a.euid as nat)))
}

pub open spec fn xdg_estado_de(a: Ambiente) -> Seq<char> {
    ou_senao(variavel(a.xdg_state_home), juntado(home_de(a), ".local/state"@))
}

pub open spec fn xdg_dados_de(a: Ambiente) -> Seq<char> {
    ou_senao(variavel(a.xdg_data_home), juntado(home_de(a), ".local/share"@))
}

pub open spec fn xdg_configuracao_de(a: Ambiente) -> Seq<char> {
    ou_senao(variavel(a.xdg_config_home), juntado(home_de(a), ".config"@))
}

pub open spec fn pasta_dados_de(a: Ambiente) -> Seq<char> {
    juntado(xdg_estado_de(a), "fol-discord"@)
}

pub open spec fn caminho_instalado_de(a: Ambiente) -> Seq<char> {
    juntado(juntado(xdg_dados_de(a), "fol-discord"@), NOME_SERVICO@)
}

pub open spec fn pasta_configuracao_de(a: Ambiente) -> Seq<char> {
    juntado(xdg_configuracao_de(a), "fol-discord"@)
}

pub open spec fn marcador_pac_de(a: Ambiente) -> Seq<char> {
    juntado(pasta_configuracao_de(a), "pac-url"@)
}

pub open spec fn launcher_discord_de(a: Ambiente) -> Seq<char> {
    juntado(juntado(xdg_dados_de(a), "applications"@), "fol-discord-discord.desktop"@)
}

pub open spec fn autostart_de(a: Ambiente) -> Seq<char> {
    juntado(juntado(xdg_configuracao_de(a), "autostart"@), "fol-discord-core.desktop"@)
}

pub open spec fn atalho_cli_de(a: Ambiente) -> Seq<char> {
    juntado(juntado(home_de(a), ".local/bin"@), NOME_SERVICO@)
}

fn variavel_exec(v: &Option<String>) -> (r: Option<Vec<char>>)
    ensures
        r matches Some(c) ==> variavel(*v) == Some(c@),
        r is None <==> variavel(*v) is None,
{
    match v {
        Some(s) => {
            let c = caracteres(s.as_str());
            if c.len() > 0 {
                Some(c)
            } else {
                None
            }
        },
        None => None,
    }
}

fn home_chars(a: &Ambiente) -> (r: Vec<char>)
    ensures
        r@ == home_de(*a),
{
    match variavel_exec(&a.home) {
        Some(h) => h,
        None => {
            let base = caracteres(a.temp_dir.as_str());
            let mut nome = caracteres("fol-discord-");
            escrever_decimal(a.euid as u64, &mut nome);
            juntar_chars(&base, &nome)
        },
    }
}

fn xdg_chars(v: &Option<String>, a: &Ambiente, padrao: &str) -> (r: Vec<char>)
    ensures
        r@ == ou_senao(variavel(*v), juntado(home_de(*a), padrao@)),
{
    match variavel_exec(v) {
        Some(x) => x,
        None => {
            let h = home_chars(a);
            let p = caracteres(padrao);
            juntar_chars(&h, &p)
        },
    }
}

fn juntar_str(base: &[char], parte: &str) -> (r: Vec<char>)
    ensures
        r@ == juntado(base@, parte@),
{
    let p = caracteres(parte);
    juntar_chars(base, &p)
}

pub fn home(a: &Ambiente) -> (r: String)
    ensures
        r@ == home_de(*a),
{
    texto_de(&home_chars(a))
}

pub fn xdg_estado(a: &Ambiente) -> (r: String)
    ensures
        r@ == xdg_estado_de(*a),
{
    texto_de(&xdg_chars(&a.xdg_state_home, a, ".local/state"))
}

pub fn xdg_dados(a: &Ambiente) -> (r: String)
    ensures
        r@ == xdg_dados_de(*a),
{
    texto_de(&xdg_chars(&a.xdg_data_home, a, ".local/share"))
}

pub fn xdg_configuracao(a: &Ambiente) -> (r: String)
    ensures
        r@ == xdg_configuracao_de(*a),
{
    texto_de(&xdg_chars(&a.xdg_config_home, a, ".config"))
}

/// Where the service keeps its log and its markers.
pub fn pasta_dados(a: &Ambiente) -> (r: String)
    ensures
        r@ == pasta_dados_de(*a),
{
    let base = xdg_chars(&a.xdg_state_home, a, ".local/state");
    texto_de(&juntar_str(&base, "fol-discord"))
}

/// Where the installed service lives.
pub fn caminho_instalado(a: &Ambiente) -> (r: String)
    ensures
        r@ == caminho_instalado_de(*a),
{
    let base = xdg_chars(&a.xdg_data_home, a, ".local/share");
    let pasta = juntar_str(&base, "fol-discord");
    texto_de(&juntar_str(&pasta, NOME_SERVICO))
}

pub fn pasta_configuracao(a: &Ambiente) -> (r: String)
    ensures
        r@ == pasta_configuracao_de(*a),
{
    let base = xdg_chars(&a.xdg_config_home, a, ".config");
    texto_de(&juntar_str(&base, "fol-discord"))
}

/// The file that records which PAC address is active.
pub fn marcador_pac(a: &Ambiente) -> (r: String)
    ensures
        r@ == marcador_pac_de(*a),
{
    let base = xdg_chars(&a.xdg_config_home, a, ".config");
    let pasta = juntar_str(&base, "fol-discord");
    texto_de(&juntar_str(&pasta, "pac-url"))
}

/// The managed Discord launcher.
pub fn launcher_discord(a: &Ambiente) -> (r: String)
    ensures
        r@ == launcher_discord_de(*a),
{
    let base = xdg_chars(&a.xdg_data_home, a, ".local/share");
    let pasta = juntar_str(&base, "applications");
    texto_de(&juntar_str(&pasta, "fol-discord-discord.desktop"))
}

/// The XDG autostart entry.
pub fn autostart(a: &Ambiente) -> (r: String)
    ensures
        r@ == autostart_de(*a),
{
    let base = xdg_chars(&a.xdg_config_home, a, ".config");
    let pasta = juntar_str(&base, "autostart");
    texto_de(&juntar_str(&pasta, "fol-discord-core.desktop"))
}

/// The command-line link in the user's `~/.local/bin`.
pub fn atalho_cli(a: &Ambiente) -> (r: String)
    ensures
        r@ == atalho_cli_de(*a),
{
    let h = home_chars(a);
    let pasta = juntar_str(&h, ".local/bin");
    texto_de(&juntar_str(&pasta, NOME_SERVICO))
}

// ---------------------------------------------------------------------------
// Desktop entries
// ---------------------------------------------------------------------------

/// One character of an `Exec=` value, escaped: `\`, `"`, `` ` `` and `$`
/// get a backslash, `%` is doubled.
pub open spec fn escapado(c: char) -> Seq<char> {
    if c == '\\' || c == '"' || c == '`' || c == '$' {
        seq!['\\', c]
    } else if c == '%' {
        seq!['%', '%']
    } else {
        seq![c]
    }
}

pub open spec fn escapados(s: Seq<char>) -> Seq<char>
    decreases s.len(),
{
    if s.len() == 0 {
        seq![]
    } else {
        escapados(s.drop_last()) + escapado(s.last())
    }
}

/// A quoted `Exec=` argument.
pub open spec fn argumento_exec(s: Seq<char>) -> Seq<char> {
    seq!['"'] + escapados(s) + seq!['"']
}

fn escapar_exec_chars(valor: &[char]) -> (r: Vec<char>)
    ensures
        r@ == argumento_exec(valor@),
{
    let mut saida: Vec<char> = Vec::new();
    saida.push('"');
    let mut i: usize = 0;
    while i < valor.len()
        invariant
            i <= valor@.len(),
            saida@ == seq!['"'] + escapados(valor@.subrange(0, i as int)),
        decreases valor@.len() - i,
    {
        let c = valor[i];
        if c == '\\' || c == '"' || c == '`' || c == '$' {
            saida.push('\\');
            saida.push(c);
        } else if c == '%' {
            saida.push('%');
            saida.push('%');
        } else {
            saida.push(c);
        }
        assert(valor@.subrange(0, i + 1).drop_last() =~= valor@.subrange(0, i as int));
        assert(saida@ =~= seq!['"'] + escapados(valor@.subrange(0, i + 1)));
        i = i + 1;
    }
    saida.push('"');
    assert(valor@.subrange(0, valor@.len() as int) =~= valor@);
    assert(saida@ =~= argumento_exec(valor@));
    saida
}

/// Quotes and escapes a path for the `Exec=` key of a desktop entry.
pub fn escapar_exec(valor: &str) -> (r: String)
    ensures
        r@ == argumento_exec(valor@),
{
    let v = caracteres(valor);
    texto_de(&escapar_exec_chars(&v))
}

pub open spec fn desktop_discord_de(servico: Seq<char>) -> Seq<char> {
    "[Desktop Entry]\nType=Application\nName=Discord (FOL-discord)\nComment=Abre o Discord com a correção regional\nExec="@
        + argumento_exec(servico)
        + " abrir-discord %U\nIcon=discord\nTerminal=false\nCategories=Network;InstantMessaging;\nMimeType=x-scheme-handler/discord;\nStartupWMClass=discord\n"@
        + ASSINATURA@ + "\n"@
}

pub open spec fn desktop_autostart_de(servico: Seq<char>) -> Seq<char> {
    "[Desktop Entry]\nType=Application\nName=FOL-discord\nComment=Inicia a correção regional do Discord\nExec="@
        + argumento_exec(servico)
        + " rodar\nIcon=fol-discord\nTerminal=false\nX-GNOME-Autostart-enabled=true\n"@ + ASSINATURA@
        + "\n"@
}

/// The managed launcher: it calls the core, which opens Discord with the PAC.
pub fn desktop_discord(servico: &str) -> (r: String)
    ensures
        r@ == desktop_discord_de(servico@),
{
    let mut v = caracteres(
        "[Desktop Entry]\nType=Application\nName=Discord (FOL-discord)\nComment=Abre o Discord com a correção regional\nExec=",
    );
    let s = caracteres(servico);
    anexar(&mut v, &escapar_exec_chars(&s));
    anexar_str(
        &mut v,
        " abrir-discord %U\nIcon=discord\nTerminal=false\nCategories=Network;InstantMessaging;\nMimeType=x-scheme-handler/discord;\nStartupWMClass=discord\n",
    );
    anexar_str(&mut v, ASSINATURA);
    anexar_str(&mut v, "\n");
    texto_de(&v)
}

/// The XDG autostart entry: starts the core in the background, no terminal.
pub fn desktop_autostart(servico: &str) -> (r: String)
    ensures
        r@ == desktop_autostart_de(servico@),
{
    let mut v = caracteres(
        "[Desktop Entry]\nType=Application\nName=FOL-discord\nComment=Inicia a correção regional do Discord\nExec=",
    );
    let s = caracteres(servico);
    anexar(&mut v, &escapar_exec_chars(&s));
    anexar_str(&mut v, " rodar\nIcon=fol-discord\nTerminal=false\nX-GNOME-Autostart-enabled=true\n");
    anexar_str(&mut v, ASSINATURA);
    anexar_str(&mut v, "\n");
    texto_de(&v)
}

// ---------------------------------------------------------------------------
// Managed files
// ---------------------------------------------------------------------------

/// A file's content carries the signature on a line of its own. An absent or
/// unreadable file (`None`) carries nothing.
pub open spec fn gerenciado(conteudo: Option<Seq<char>>) -> bool {
    match conteudo {
        Some(t) => assinado(t),
        None => false,
    }
}

/// Some line of `t` is the signature.
pub open spec fn assinado(t: Seq<char>) -> bool {
    exists|i: int| 0 <= i < linhas(t).len() && #[trigger] linhas(t)[i] == ASSINATURA@
}

pub open spec fn visto(c: Option<&str>) -> Option<Seq<char>> {
    match c {
        Some(t) => Some(t@),
        None => None,
    }
}

/// Whether the file whose current content is `conteudo` was written by us.
pub fn e_gerenciado(conteudo: Option<&str>) -> (r: bool)
    ensures
        r == gerenciado(visto(conteudo)),
{
    match conteudo {
        None => false,
        Some(t) => {
            let chars = caracteres(t);
            let ls = dividir_linhas(&chars);
            let assinatura = caracteres(ASSINATURA);
            let mut i: usize = 0;
            while i < ls.len()
                invariant
                    i <= ls@.len(),
                    ls@.len() == linhas(t@).len(),
                    forall|k: int| 0 <= k < ls@.len() ==> #[trigger] ls@[k]@ == linhas(t@)[k],
                    assinatura@ == ASSINATURA@,
                    visto(conteudo) == Some(t@),
                    forall|k: int| 0 <= k < i ==> linhas(t@)[k] != ASSINATURA@,
                decreases ls@.len() - i,
            {
                if iguais(&ls[i], &assinatura) {
                    assert(ls@[i as int]@ == linhas(t@)[i as int]);
                    assert(linhas(t@)[i as int] == ASSINATURA@);
                    return true;
                }
                i = i + 1;
            }
            false
        },
    }
}

/// A managed path may be written when nothing is there, or when what is
/// there is ours.
pub open spec fn pode_gravar(existe: bool, atual: Option<Seq<char>>) -> bool {
    !existe || gerenciado(atual)
}

/// Creates the XDG autostart entry for the service at `servico`: the
/// content to write, or the refusal to overwrite a file that is not ours.
pub fn ativar_autostart(a: &Ambiente, servico: &str, existe: bool, atual: Option<&str>) -> (r:
    Result<String, RecusaLinux>)
    ensures
        pode_gravar(existe, visto(atual)) ==> (r matches Ok(c) && c@ == desktop_autostart_de(
            servico@,
        )),
        !pode_gravar(existe, visto(atual)) ==> (r matches Err(RecusaLinux::NaoGerenciado(p)) && p@
            == autostart_de(*a)),
{
    if existe && !e_gerenciado(atual) {
        return Err(RecusaLinux::NaoGerenciado(autostart(a)));
    }
    Ok(desktop_autostart(servico))
}

/// Refuses when the autostart entry exists and belongs to someone else.
pub fn validar_autostart_do_fol(a: &Ambiente, existe: bool, atual: Option<&str>) -> (r: Result<
    (),
    RecusaLinux,
>)
    ensures
        pode_gravar(existe, visto(atual)) ==> r is Ok,
        !pode_gravar(existe, visto(atual)) ==> (r matches Err(RecusaLinux::NaoGerenciado(p)) && p@
            == autostart_de(*a)),
{
    if existe && !e_gerenciado(atual) {
        return Err(RecusaLinux::NaoGerenciado(autostart(a)));
    }
    Ok(())
}

/// The autostart entry is ours.
pub fn autostart_ativo(atual: Option<&str>) -> (r: bool)
    ensures
        r == gerenciado(visto(atual)),
{
    e_gerenciado(atual)
}

/// The PAC is active: our launcher is in place and the marker holds `url`.
pub fn pac_ativo(url: &str, launcher: Option<&str>, marcador: Option<&str>) -> (r: bool)
    ensures
        r == (gerenciado(visto(launcher)) && match marcador {
            Some(m) => apara(m@) == url@,
            None => false,
        }),
{
    if !e_gerenciado(launcher) {
        return false;
    }
    match marcador {
        None => false,
        Some(m) => {
            let c = caracteres(m);
            let t = aparado(&c);
            iguais_str(&t, url)
        },
    }
}

/// What activating the PAC writes: the managed launcher and the marker.
pub struct ArquivosPac {
    pub launcher: String,
    pub marcador: String,
}

/// Activates the fix without touching the desktop's global proxy: the
/// managed launcher calls the core, which opens Discord with the PAC.
pub fn ativar_pac(
    a: &Ambiente,
    url: &str,
    servico: &str,
    launcher_existe: bool,
    launcher_atual: Option<&str>,
) -> (r: Result<ArquivosPac, RecusaLinux>)
    ensures
        pode_gravar(launcher_existe, visto(launcher_atual)) ==> (r matches Ok(arq) && arq.launcher@
            == desktop_discord_de(servico@) && arq.marcador@ == url@ + "\n"@),
        !pode_gravar(launcher_existe, visto(launcher_atual)) ==> (r matches Err(
            RecusaLinux::NaoGerenciado(p),
        ) && p@ == launcher_discord_de(*a)),
{
    if launcher_existe && !e_gerenciado(launcher_atual) {
        return Err(RecusaLinux::NaoGerenciado(launcher_discord(a)));
    }
    let mut m = caracteres(url);
    anexar_str(&mut m, "\n");
    Ok(ArquivosPac { launcher: desktop_discord(servico), marcador: texto_de(&m) })
}

/// Deactivating the PAC: whether the launcher is to be removed (it exists
/// and is ours), or the refusal when it exists and is not ours.
pub fn desativar_pac(a: &Ambiente, launcher_existe: bool, launcher_atual: Option<&str>) -> (r:
    Result<bool, RecusaLinux>)
    ensures
        !launcher_existe ==> r == Ok::<bool, RecusaLinux>(false),
        launcher_existe && gerenciado(visto(launcher_atual)) ==> r == Ok::<bool, RecusaLinux>(true),
        launcher_existe && !gerenciado(visto(launcher_atual)) ==> (r matches Err(
            RecusaLinux::NaoGerenciado(p),
        ) && p@ == launcher_discord_de(*a)),
{
    if !launcher_existe {
        return Ok(false);
    }
    if !e_gerenciado(launcher_atual) {
        return Err(RecusaLinux::NaoGerenciado(launcher_discord(a)));
    }
    Ok(true)
}

/// Registering the command-line link: whether to create it, given where the
/// current link points (`destino`, if it is a link) and whether anything
/// occupies the path.
pub fn registrar_cli(a: &Ambiente, servico: &str, destino: Option<&str>, existe: bool) -> (r:
    Result<bool, RecusaLinux>)
    ensures
        destino matches Some(d) && d@ == servico@ ==> r == Ok::<bool, RecusaLinux>(false),
        destino matches Some(d) && d@ != servico@ ==> (r matches Err(
            RecusaLinux::AtalhoDeOutroPrograma(p),
        ) && p@ == atalho_cli_de(*a)),
        destino is None && existe ==> (r matches Err(RecusaLinux::AtalhoOcupado(p)) && p@
            == atalho_cli_de(*a)),
        destino is None && !existe ==> r == Ok::<bool, RecusaLinux>(true),
{
    match destino {
        Some(d) => {
            let dc = caracteres(d);
            if iguais_str(&dc, servico) {
                Ok(false)
            } else {
                Err(RecusaLinux::AtalhoDeOutroPrograma(atalho_cli(a)))
            }
        },
        None => {
            if existe {
                Err(RecusaLinux::AtalhoOcupado(atalho_cli(a)))
            } else {
                Ok(true)
            }
        },
    }
}

/// Removing the command-line link: whether to remove it (it points to
/// `servico`), nothing to do when there is no link, or the refusal when it
/// points elsewhere.
pub fn remover_cli(a: &Ambiente, servico: &str, destino: Option<&str>) -> (r: Result<
    bool,
    RecusaLinux,
>)
    ensures
        destino is None ==> r == Ok::<bool, RecusaLinux>(false),
        destino matches Some(d) && d@ == servico@ ==> r == Ok::<bool, RecusaLinux>(true),
        destino matches Some(d) && d@ != servico@ ==> (r matches Err(
            RecusaLinux::AtalhoDeOutroPrograma(p),
        ) && p@ == atalho_cli_de(*a)),
{
    match destino {
        None => Ok(false),
        Some(d) => {
            let dc = caracteres(d);
            if iguais_str(&dc, servico) {
                Ok(true)
            } else {
                Err(RecusaLinux::AtalhoDeOutroPrograma(atalho_cli(a)))
            }
        },
    }
}

/// The command-line link points to `servico`.
pub fn cli_registrada(servico: &str, destino: Option<&str>) -> (r: bool)
    ensures
        r == (destino matches Some(d) && d@ == servico@),
{
    match destino {
        None => false,
        Some(d) => {
            let dc = caracteres(d);
            iguais_str(&dc, servico)
        },
    }
}


// ---------------------------------------------------------------------------
// What this module writes is recognised as its own
// ---------------------------------------------------------------------------

/// Splitting after a line break: the lines of `x + y` are those of `x` and
/// then those of `y`, when `x` ends with `\n`.
proof fn lemma_linhas_juntas(x: Seq<char>, y: Seq<char>)
    requires
        x.len() > 0,
        x.last() == '\n',
    ensures
        linhas(x + y) == linhas(x) + linhas(y),
    decreases x.len(),
{
    let t = x + y;
    crate::texto::lemma_indice(x, '\n');
    let i = crate::texto::indice(x, '\n');
    assert(i < x.len());
    assert forall|j: int| 0 <= j < i implies t[j] != '\n' by {
        assert(t[j] == x[j]);
    }
    crate::texto::lemma_indice_em(t, '\n', i);
    assert(t.subrange(0, i) =~= x.subrange(0, i));
    assert(t.subrange(i + 1, t.len() as int) =~= x.subrange(i + 1, x.len() as int) + y);
    if i + 1 == x.len() {
        assert(x.subrange(i + 1, x.len() as int) =~= Seq::<char>::empty());
        assert(Seq::<char>::empty() + y =~= y);
        assert(linhas(x) == seq![crate::texto::sem_cr(x.subrange(0, i))] + linhas(
            Seq::<char>::empty(),
        ));
        assert(linhas(Seq::<char>::empty()) =~= Seq::<Seq<char>>::empty());
        assert(linhas(x) =~= seq![crate::texto::sem_cr(x.subrange(0, i))]);
    } else {
        let resto = x.subrange(i + 1, x.len() as int);
        assert(resto.last() == x.last());
        lemma_linhas_juntas(resto, y);
        assert(linhas(x) == seq![crate::texto::sem_cr(x.subrange(0, i))] + linhas(resto));
        assert(linhas(t) == seq![crate::texto::sem_cr(x.subrange(0, i))] + linhas(resto + y));
        assert(linhas(t) =~= linhas(x) + linhas(y));
    }
}

/// A text that ends with the signature on a line of its own is signed.
proof fn lemma_termina_assinado(p: Seq<char>)
    requires
        p.len() > 0,
        p.last() == '\n',
    ensures
        assinado(p + ASSINATURA@ + "\n"@),
{
    let a = ASSINATURA@;
    let f = a + "\n"@;
    reveal_strlit("X-FOL-Discord-Managed=true");
    reveal_strlit("\n");
    assert(p + a + "\n"@ =~= p + f);
    lemma_linhas_juntas(p, f);
    assert forall|j: int| 0 <= j < a.len() implies f[j] != '\n' by {
        assert(f[j] == a[j]);
    }
    crate::texto::lemma_indice_em(f, '\n', a.len() as int);
    assert(f.subrange(0, a.len() as int) =~= a);
    assert(f.subrange(a.len() + 1 as int, f.len() as int) =~= Seq::<char>::empty());
    assert(a.last() == 'e');
    assert(crate::texto::sem_cr(a) == a);
    assert(linhas(f) =~= seq![a] + linhas(Seq::<char>::empty()));
    assert(linhas(Seq::<char>::empty()) =~= Seq::<Seq<char>>::empty());
    let k = linhas(p).len() as int;
    assert(linhas(p + f)[k] == a);
}

/// The Discord launcher this module writes carries the signature, so that
/// deactivating the PAC may remove it again.
pub proof fn lei_launcher_escrito_e_gerenciado(servico: Seq<char>)
    ensures
        gerenciado(Some(desktop_discord_de(servico))),
{
    let cabeca = "[Desktop Entry]\nType=Application\nName=Discord (FOL-discord)\nComment=Abre o Discord com a correção regional\nExec="@
        + argumento_exec(servico);
    let cauda = " abrir-discord %U\nIcon=discord\nTerminal=false\nCategories=Network;InstantMessaging;\nMimeType=x-scheme-handler/discord;\nStartupWMClass=discord\n"@;
    reveal_strlit(
        " abrir-discord %U\nIcon=discord\nTerminal=false\nCategories=Network;InstantMessaging;\nMimeType=x-scheme-handler/discord;\nStartupWMClass=discord\n",
    );
    let p = cabeca + cauda;
    assert(p.last() == '\n');
    lemma_termina_assinado(p);
    assert(desktop_discord_de(servico) =~= p + ASSINATURA@ + "\n"@);
}

/// The autostart entry this module writes carries the signature, so that
/// uninstalling may remove it again.
pub proof fn lei_autostart_escrito_e_gerenciado(servico: Seq<char>)
    ensures
        gerenciado(Some(desktop_autostart_de(servico))),
{
    let cabeca = "[Desktop Entry]\nType=Application\nName=FOL-discord\nComment=Inicia a correção regional do Discord\nExec="@
        + argumento_exec(servico);
    let cauda = " rodar\nIcon=fol-discord\nTerminal=false\nX-GNOME-Autostart-enabled=true\n"@;
    reveal_strlit(" rodar\nIcon=fol-discord\nTerminal=false\nX-GNOME-Autostart-enabled=true\n");
    let p = cabeca + cauda;
    assert(p.last() == '\n');
    lemma_termina_assinado(p);
    assert(desktop_autostart_de(servico) =~= p + ASSINATURA@ + "\n"@);
}

} // verus!
