//! Starting the installed window at logon, and finding its uninstaller.
//!
//! The window registers a scheduled task that opens it in the tray; the old
//! `Run` value of the service is only removed when it is ours. The
//! uninstaller comes from the key the setup writes, or from the file next to
//! the window, and must live in the window's own folder.

use vstd::prelude::*;
use vstd::utf8::{decode_utf8, valid_utf8};

use crate::caminhos::{
    juntado_windows, juntar_windows, pasta, pasta_de, raiz, sem_separadores, sem_separadores_de,
    separador,
};
use crate::texto::{
    anexar_str, apara, apara_inicio, caracteres, contem, contem_trecho, espaco,
    e_espaco, iguais_ignorando_caixa, iguais_sem_caixa, indice, lemma_apara_inicio_passo,
    lemma_indice, lemma_indice_em, limites_aparados, texto_de, trecho,
};
use crate::utf16::{decodificado, decodificar};
use crate::windows::{palavra_em, palavras};

verus! {

/// The scheduled task that opens the window in the tray at logon.
pub const TAREFA_BANDEJA: &'static str = "FolDiscord.Bandeja";

/// Where the setup registers the uninstaller, in the order they are tried:
/// the key named after the product, then the one named after the
/// identifier, which older installations used.
pub const CHAVES_DESINSTALAR: [&'static str; 2] = [
    "Software\\Microsoft\\Windows\\CurrentVersion\\Uninstall\\FOL-discord",
    "Software\\Microsoft\\Windows\\CurrentVersion\\Uninstall\\br.com.foldiscord.janela",
];

/// The setup always writes the uninstaller under this name, next to the
/// window.
pub const NOME_DESINSTALADOR: &'static str = "uninstall.exe";

/// The file the setup leaves next to an installed window.
pub const MARCADOR_INSTALACAO: &'static str = ".fol-discord-instalada";

/// Why the window refused to go on.
#[derive(Debug, PartialEq, Eq, Structural)]
pub enum ErroInicializacao {
    LinhaVazia,
    AspasNoCaminho,
    CaminhoVazio,
    AspasNoArgumento,
    SemPastaDaInterface,
    SemDesinstalador,
    DesinstaladorRelativo,
    DesinstaladorDeFora,
    RunDeOutroPrograma,
    InterfaceNaoInstalada,
}

/// The message shown to the person for each refusal.
pub open spec fn mensagem_de(e: ErroInicializacao) -> Seq<char> {
    match e {
        ErroInicializacao::LinhaVazia => "o desinstalador registrado está vazio"@,
        ErroInicializacao::AspasNoCaminho => "o caminho do desinstalador tem aspas sem fechamento"@,
        ErroInicializacao::CaminhoVazio => "o caminho do desinstalador está vazio"@,
        ErroInicializacao::AspasNoArgumento => "um argumento do desinstalador tem aspas sem fechamento"@,
        ErroInicializacao::SemPastaDaInterface => "não encontrei a pasta da interface"@,
        ErroInicializacao::SemDesinstalador => "não encontrei o desinstalador registrado pelo setup"@,
        ErroInicializacao::DesinstaladorRelativo => "o desinstalador registrado não tem caminho absoluto"@,
        ErroInicializacao::DesinstaladorDeFora => "o desinstalador registrado não pertence à instalação atual do FOL-discord"@,
        ErroInicializacao::RunDeOutroPrograma => "A entrada de inicialização FolDiscord pertence a outro programa e não foi alterada."@,
        ErroInicializacao::InterfaceNaoInstalada => "a inicialização automática só pode usar a interface instalada pelo setup"@,
    }
}

impl ErroInicializacao {
    /// The message shown to the person.
    pub fn mensagem(&self) -> (r: String)
        ensures
            r@ == mensagem_de(*self),
    {
        let t = match self {
            ErroInicializacao::LinhaVazia => "o desinstalador registrado está vazio",
            ErroInicializacao::AspasNoCaminho => "o caminho do desinstalador tem aspas sem fechamento",
            ErroInicializacao::CaminhoVazio => "o caminho do desinstalador está vazio",
            ErroInicializacao::AspasNoArgumento => "um argumento do desinstalador tem aspas sem fechamento",
            ErroInicializacao::SemPastaDaInterface => "não encontrei a pasta da interface",
            ErroInicializacao::SemDesinstalador => "não encontrei o desinstalador registrado pelo setup",
            ErroInicializacao::DesinstaladorRelativo => "o desinstalador registrado não tem caminho absoluto",
            ErroInicializacao::DesinstaladorDeFora => "o desinstalador registrado não pertence à instalação atual do FOL-discord",
            ErroInicializacao::RunDeOutroPrograma => "A entrada de inicialização FolDiscord pertence a outro programa e não foi alterada.",
            ErroInicializacao::InterfaceNaoInstalada => "a inicialização automática só pode usar a interface instalada pelo setup",
        };
        texto_de(&caracteres(t))
    }
}

// ---------------------------------------------------------------------------
// The logon task
// ---------------------------------------------------------------------------

/// One character escaped for XML text.
pub open spec fn entidade(c: char) -> Seq<char> {
    if c == '&' {
        "&amp;"@
    } else if c == '<' {
        "&lt;"@
    } else if c == '>' {
        "&gt;"@
    } else if c == '"' {
        "&quot;"@
    } else if c == '\'' {
        "&apos;"@
    } else {
        seq![c]
    }
}

pub open spec fn escapado_xml(s: Seq<char>) -> Seq<char>
    decreases s.len(),
{
    if s.len() == 0 {
        seq![]
    } else {
        escapado_xml(s.drop_last()) + entidade(s.last())
    }
}

fn escapar_em(saida: &mut Vec<char>, valor: &[char])
    ensures
        final(saida)@ == old(saida)@ + escapado_xml(valor@),
{
    let ghost inicio = saida@;
    let mut i: usize = 0;
    while i < valor.len()
        invariant
            i <= valor@.len(),
            saida@ == inicio + escapado_xml(valor@.subrange(0, i as int)),
        decreases valor@.len() - i,
    {
        let c = valor[i];
        if c == '&' {
            anexar_str(saida, "&amp;");
        } else if c == '<' {
            anexar_str(saida, "&lt;");
        } else if c == '>' {
            anexar_str(saida, "&gt;");
        } else if c == '"' {
            anexar_str(saida, "&quot;");
        } else if c == '\'' {
            anexar_str(saida, "&apos;");
        } else {
            saida.push(c);
        }
        assert(valor@.subrange(0, i + 1).drop_last() =~= valor@.subrange(0, i as int));
        assert(saida@ =~= inicio + escapado_xml(valor@.subrange(0, i + 1)));
        i = i + 1;
    }
    assert(valor@.subrange(0, valor@.len() as int) =~= valor@);
}

/// `valor` escaped for XML text: `&`, `<`, `>`, `"` and `'` become
/// entities.
pub fn xml_escapado(valor: &str) -> (r: String)
    ensures
        r@ == escapado_xml(valor@),
{
    let mut v: Vec<char> = Vec::new();
    escapar_em(&mut v, &caracteres(valor));
    assert(v@ =~= escapado_xml(valor@));
    texto_de(&v)
}

/// The definition of the logon task.
pub struct TarefaXml {
    pub xml: String,
}

pub open spec fn cabecalho_tarefa() -> Seq<char> {
    "<?xml version=\"1.0\" encoding=\"UTF-16\"?><Task version=\"1.4\" xmlns=\"http://schemas.microsoft.com/windows/2004/02/mit/task\"><Triggers><LogonTrigger><Enabled>true</Enabled><UserId>"@
}

pub open spec fn meio_tarefa() -> Seq<char> {
    "</UserId></LogonTrigger></Triggers><Principals><Principal id=\"Author\"><UserId>"@
}

pub open spec fn antes_do_comando() -> Seq<char> {
    "</UserId><LogonType>InteractiveToken</LogonType><RunLevel>LeastPrivilege</RunLevel></Principal></Principals><Settings><MultipleInstancesPolicy>IgnoreNew</MultipleInstancesPolicy><AllowStartOnDemand>true</AllowStartOnDemand><Enabled>true</Enabled><Hidden>false</Hidden></Settings><Actions Context=\"Author\"><Exec><Command>"@
}

pub open spec fn fim_tarefa() -> Seq<char> {
    "</Command><Arguments>--bandeja</Arguments></Exec></Actions></Task>"@
}

/// The task: at the logon of `usuario`, with that user's interactive token
/// and least privilege, run the window at `path_ui` with `--bandeja`; a
/// second start while one runs is ignored.
pub open spec fn tarefa_de(path_ui: Seq<char>, usuario: Seq<char>) -> Seq<char> {
    cabecalho_tarefa() + escapado_xml(usuario) + meio_tarefa() + escapado_xml(usuario)
        + antes_do_comando() + escapado_xml(path_ui) + fim_tarefa()
}

pub fn xml_tarefa(path_ui: &str, usuario: &str) -> (r: TarefaXml)
    ensures
        r.xml@ == tarefa_de(path_ui@, usuario@),
{
    let u = caracteres(usuario);
    let p = caracteres(path_ui);
    let mut v = caracteres(
        "<?xml version=\"1.0\" encoding=\"UTF-16\"?><Task version=\"1.4\" xmlns=\"http://schemas.microsoft.com/windows/2004/02/mit/task\"><Triggers><LogonTrigger><Enabled>true</Enabled><UserId>",
    );
    escapar_em(&mut v, &u);
    anexar_str(
        &mut v,
        "</UserId></LogonTrigger></Triggers><Principals><Principal id=\"Author\"><UserId>",
    );
    escapar_em(&mut v, &u);
    anexar_str(
        &mut v,
        "</UserId><LogonType>InteractiveToken</LogonType><RunLevel>LeastPrivilege</RunLevel></Principal></Principals><Settings><MultipleInstancesPolicy>IgnoreNew</MultipleInstancesPolicy><AllowStartOnDemand>true</AllowStartOnDemand><Enabled>true</Enabled><Hidden>false</Hidden></Settings><Actions Context=\"Author\"><Exec><Command>",
    );
    escapar_em(&mut v, &p);
    anexar_str(&mut v, "</Command><Arguments>--bandeja</Arguments></Exec></Actions></Task>");
    assert(v@ =~= tarefa_de(path_ui@, usuario@));
    TarefaXml { xml: texto_de(&v) }
}

/// A registered task is ours: it runs this window with `--bandeja`.
pub open spec fn tarefa_corresponde(xml: Seq<char>, interface: Seq<char>) -> bool {
    contem(xml, "<Command>"@ + escapado_xml(interface) + "</Command>"@) && contem(
        xml,
        "<Arguments>--bandeja</Arguments>"@,
    )
}

pub fn xml_da_tarefa_corresponde(xml: &str, interface: &str) -> (r: bool)
    ensures
        r == tarefa_corresponde(xml@, interface@),
{
    let x = caracteres(xml);
    let mut comando = caracteres("<Command>");
    escapar_em(&mut comando, &caracteres(interface));
    anexar_str(&mut comando, "</Command>");
    let argumentos = caracteres("<Arguments>--bandeja</Arguments>");
    contem_trecho(&x, &comando) && contem_trecho(&x, &argumentos)
}

/// The logon task is removed only when its action is this window: `xml` is
/// the registered task's definition, when there is one.
pub fn tarefa_removivel(xml: Option<&str>, interface: &str) -> (r: bool)
    ensures
        r == (xml matches Some(x) && tarefa_corresponde(x@, interface@)),
{
    match xml {
        Some(x) => xml_da_tarefa_corresponde(x, interface),
        None => false,
    }
}

/// What a task written by this window holds is recognised as ours.
pub proof fn lei_tarefa_escrita_corresponde(path_ui: Seq<char>, usuario: Seq<char>)
    ensures
        tarefa_corresponde(tarefa_de(path_ui, usuario), path_ui),
{
    let x = tarefa_de(path_ui, usuario);
    let comando = "<Command>"@ + escapado_xml(path_ui) + "</Command>"@;
    let argumentos = "<Arguments>--bandeja</Arguments>"@;
    let a = cabecalho_tarefa() + escapado_xml(usuario) + meio_tarefa() + escapado_xml(usuario)
        + antes_do_comando();
    reveal_strlit("<Command>");
    reveal_strlit("</Command>");
    reveal_strlit("<Arguments>--bandeja</Arguments>");
    reveal_strlit(
        "</UserId><LogonType>InteractiveToken</LogonType><RunLevel>LeastPrivilege</RunLevel></Principal></Principals><Settings><MultipleInstancesPolicy>IgnoreNew</MultipleInstancesPolicy><AllowStartOnDemand>true</AllowStartOnDemand><Enabled>true</Enabled><Hidden>false</Hidden></Settings><Actions Context=\"Author\"><Exec><Command>",
    );
    reveal_strlit("</Command><Arguments>--bandeja</Arguments></Exec></Actions></Task>");
    let i: int = a.len() - 9;
    assert(x =~= a + escapado_xml(path_ui) + fim_tarefa());
    assert(x.subrange(i, i + comando.len()) =~= comando);
    let j: int = a.len() + escapado_xml(path_ui).len() + 10int;
    assert(x.subrange(j, j + argumentos.len()) =~= argumentos);
}

// ---------------------------------------------------------------------------
// The service's old `Run` value
// ---------------------------------------------------------------------------

/// A `Run` value starts the service at `servico`: trimmed, it begins with
/// the quoted path.
pub open spec fn run_do_fol(valor: Seq<char>, servico: Seq<char>) -> bool {
    let v = apara(valor);
    &&& v.len() > servico.len() + 1
    &&& v[0] == '"'
    &&& v.subrange(1, servico.len() + 1 as int) == servico
    &&& v[servico.len() + 1 as int] == '"'
}

pub fn entrada_run_e_do_fol(valor: &str, servico: &str) -> (r: bool)
    ensures
        r == run_do_fol(valor@, servico@),
{
    let c = caracteres(valor);
    let (i, j) = limites_aparados(&c);
    let v = trecho(&c, i, j);
    let s = caracteres(servico);
    if v.len() < 2 || v.len() - 2 < s.len() || v[0] != '"' {
        return false;
    }
    let mut k: usize = 0;
    while k < s.len()
        invariant
            v@ == apara(valor@),
            s@ == servico@,
            v@[0] == '"',
            v@.len() > s@.len() + 1,
            k <= s@.len(),
            forall|m: int| 0 <= m < k ==> v@[m + 1] == s@[m],
        decreases s@.len() - k,
    {
        if v[k + 1] != s[k] {
            assert(v@.subrange(1, s@.len() + 1 as int)[k as int] != s@[k as int]);
            return false;
        }
        k = k + 1;
    }
    assert(v@.subrange(1, s@.len() + 1 as int) =~= s@);
    v[s.len() + 1] == '"'
}

/// Refuses when the `Run` value exists and starts another program.
pub fn validar_run_legado(valor: Option<&str>, servico: &str) -> (r: Result<(), ErroInicializacao>)
    ensures
        r is Err <==> (valor matches Some(v) && !run_do_fol(v@, servico@)),
        r matches Err(e) ==> e == ErroInicializacao::RunDeOutroPrograma,
{
    match valor {
        Some(v) => if entrada_run_e_do_fol(v, servico) {
            Ok(())
        } else {
            Err(ErroInicializacao::RunDeOutroPrograma)
        },
        None => Ok(()),
    }
}

/// Removing the old `Run` value: whether to delete it (it is there and it is
/// ours), or the refusal when it starts another program.
pub fn remover_run_legado_do_fol(valor: Option<&str>, servico: &str) -> (r: Result<
    bool,
    ErroInicializacao,
>)
    ensures
        valor is None ==> r == Ok::<bool, ErroInicializacao>(false),
        valor matches Some(v) && run_do_fol(v@, servico@) ==> r == Ok::<bool, ErroInicializacao>(
            true,
        ),
        valor matches Some(v) && !run_do_fol(v@, servico@) ==> r == Err::<bool, ErroInicializacao>(
            ErroInicializacao::RunDeOutroPrograma,
        ),
{
    match valor {
        Some(v) => if entrada_run_e_do_fol(v, servico) {
            Ok(true)
        } else {
            Err(ErroInicializacao::RunDeOutroPrograma)
        },
        None => Ok(false),
    }
}

// ---------------------------------------------------------------------------
// Folders and the installed window
// ---------------------------------------------------------------------------

/// Two paths name the same folder: without the separators that end them,
/// ignoring ASCII case.
pub open spec fn mesmo_caminho(esquerda: Seq<char>, direita: Seq<char>) -> bool {
    iguais_sem_caixa(sem_separadores(esquerda), sem_separadores(direita))
}

pub fn caminho_igual(esquerda: &str, direita: &str) -> (r: bool)
    ensures
        r == mesmo_caminho(esquerda@, direita@),
{
    let a = sem_separadores_de(&caracteres(esquerda));
    let b = sem_separadores_de(&caracteres(direita));
    iguais_ignorando_caixa(&a, &b)
}

/// The uninstaller lives in the window's own folder.
pub open spec fn pertence(interface: Seq<char>, uninstaller: Seq<char>) -> bool {
    match (pasta(interface), pasta(uninstaller)) {
        (Some(a), Some(b)) => mesmo_caminho(a, b),
        _ => false,
    }
}

pub fn uninstaller_pertence_a_instalacao(interface: &str, uninstaller: &str) -> (r: bool)
    ensures
        r == pertence(interface@, uninstaller@),
{
    match (pasta_de(interface), pasta_de(uninstaller)) {
        (Some(a), Some(b)) => caminho_igual(a.as_str(), b.as_str()),
        _ => false,
    }
}

/// The file whose presence marks the window at `atual` as installed by the
/// setup: the marker in its folder.
pub fn marcador_da_instalacao(atual: &str) -> (r: Option<String>)
    ensures
        match pasta(atual@) {
            Some(p) => r matches Some(m) && m@ == juntado_windows(p, MARCADOR_INSTALACAO@),
            None => r is None,
        },
{
    match pasta_de(atual) {
        Some(p) => Some(juntar_windows(p.as_str(), MARCADOR_INSTALACAO)),
        None => None,
    }
}

/// An absolute Windows path: a drive and its root (`C:\`), or a network path
/// (`\\server`).
pub open spec fn absoluto(s: Seq<char>) -> bool {
    raiz(s) == 3 || (s.len() >= 2 && separador(s[0]) && separador(s[1]))
}

pub fn e_absoluto(s: &str) -> (r: bool)
    ensures
        r == absoluto(s@),
{
    let c = caracteres(s);
    (c.len() >= 3 && c[1] == ':' && (c[2] == '\\' || c[2] == '/')) || (c.len() >= 2 && (c[0]
        == '\\' || c[0] == '/') && (c[1] == '\\' || c[1] == '/'))
}

/// The logon task may only point at the window the setup installed: an
/// absolute path whose folder holds the setup's marker.
pub fn pode_ativar_tarefa(interface: &str, marcado: bool) -> (r: Result<(), ErroInicializacao>)
    ensures
        r is Ok <==> (absoluto(interface@) && marcado),
        r matches Err(e) ==> e == ErroInicializacao::InterfaceNaoInstalada,
{
    if !e_absoluto(interface) || !marcado {
        return Err(ErroInicializacao::InterfaceNaoInstalada);
    }
    Ok(())
}

// ---------------------------------------------------------------------------
// The uninstaller's command line
// ---------------------------------------------------------------------------

/// Position of the first whitespace in `s`, or `s.len()`.
pub open spec fn primeiro_espaco(s: Seq<char>) -> int
    decreases s.len(),
{
    if s.len() == 0 {
        0
    } else if espaco(s[0]) {
        0
    } else {
        1 + primeiro_espaco(s.drop_first())
    }
}

pub proof fn lemma_primeiro_espaco(s: Seq<char>)
    ensures
        0 <= primeiro_espaco(s) <= s.len(),
        primeiro_espaco(s) < s.len() ==> espaco(s[primeiro_espaco(s)]),
        forall|j: int| 0 <= j < primeiro_espaco(s) ==> !espaco(s[j]),
    decreases s.len(),
{
    if s.len() > 0 && !espaco(s[0]) {
        lemma_primeiro_espaco(s.drop_first());
        assert forall|j: int| 0 <= j < primeiro_espaco(s) implies !espaco(s[j]) by {
            if j > 0 {
                assert(s[j] == s.drop_first()[j - 1]);
            }
        }
    }
}

proof fn lemma_primeiro_espaco_em(s: Seq<char>, k: int)
    requires
        0 <= k <= s.len(),
        k < s.len() ==> espaco(s[k]),
        forall|j: int| 0 <= j < k ==> !espaco(s[j]),
    ensures
        primeiro_espaco(s) == k,
    decreases s.len(),
{
    if s.len() > 0 && !espaco(s[0]) {
        assert forall|j: int| 0 <= j < k - 1 implies !espaco(s.drop_first()[j]) by {
            assert(s.drop_first()[j] == s[j + 1]);
        }
        lemma_primeiro_espaco_em(s.drop_first(), k - 1);
    }
}

pub proof fn lemma_apara_inicio_sufixo(s: Seq<char>)
    ensures
        apara_inicio(s).len() <= s.len(),
        apara_inicio(s).len() > 0 ==> !espaco(apara_inicio(s)[0]),
    decreases s.len(),
{
    if s.len() > 0 && espaco(s[0]) {
        lemma_apara_inicio_sufixo(s.drop_first());
    }
}

/// The arguments after the program on a command line: leading whitespace
/// skipped, each one either quoted (up to the next `"`, which is dropped) or
/// up to the next whitespace; `None` when a quote is not closed.
pub open spec fn argumentos(r: Seq<char>) -> Option<Seq<Seq<char>>>
    decreases r.len(),
{
    let t = apara_inicio(r);
    if t.len() == 0 {
        Some(seq![])
    } else if t[0] == '"' {
        let s = t.drop_first();
        let fim = indice(s, '"');
        if fim >= s.len() {
            None
        } else {
            proof {
                lemma_apara_inicio_sufixo(r);
                lemma_indice(s, '"');
            }
            match argumentos(s.subrange(fim + 1, s.len() as int)) {
                Some(a) => Some(seq![s.subrange(0, fim)] + a),
                None => None,
            }
        }
    } else {
        let fim = primeiro_espaco(t);
        proof {
            lemma_apara_inicio_sufixo(r);
            lemma_primeiro_espaco(t);
        }
        match argumentos(t.subrange(fim, t.len() as int)) {
            Some(a) => Some(seq![t.subrange(0, fim)] + a),
            None => None,
        }
    }
}

/// The program and its arguments, or why there are none.
pub open spec fn depois_do_programa(exe: Seq<char>, resto: Seq<char>) -> Result<
    (Seq<char>, Seq<Seq<char>>),
    ErroInicializacao,
> {
    if exe.len() == 0 {
        Err(ErroInicializacao::CaminhoVazio)
    } else {
        match argumentos(resto) {
            Some(a) => Ok((exe, a)),
            None => Err(ErroInicializacao::AspasNoArgumento),
        }
    }
}

/// A registered uninstall command line, trimmed: the program (quoted up to
/// the next `"`, or up to the first whitespace) and its arguments.
pub open spec fn linha_de_comando(linha: Seq<char>) -> Result<
    (Seq<char>, Seq<Seq<char>>),
    ErroInicializacao,
> {
    let l = apara(linha);
    if l.len() == 0 {
        Err(ErroInicializacao::LinhaVazia)
    } else if l[0] == '"' {
        let s = l.drop_first();
        let fim = indice(s, '"');
        if fim >= s.len() {
            Err(ErroInicializacao::AspasNoCaminho)
        } else {
            depois_do_programa(s.subrange(0, fim), s.subrange(fim + 1, s.len() as int))
        }
    } else {
        let fim = primeiro_espaco(l);
        depois_do_programa(l.subrange(0, fim), l.subrange(fim, l.len() as int))
    }
}

pub open spec fn textos(v: Seq<String>) -> Seq<Seq<char>> {
    v.map_values(|t: String| t@)
}

pub open spec fn junto(acc: Seq<Seq<char>>, o: Option<Seq<Seq<char>>>) -> Option<Seq<Seq<char>>> {
    match o {
        Some(a) => Some(acc + a),
        None => None,
    }
}

fn pular_espacos(l: &[char], pos: usize) -> (i: usize)
    requires
        pos <= l@.len(),
    ensures
        pos <= i <= l@.len(),
        l@.subrange(i as int, l@.len() as int) == apara_inicio(l@.subrange(pos as int, l@.len() as int)),
        i < l@.len() ==> !espaco(l@[i as int]),
{
    let mut i = pos;
    while i < l.len() && e_espaco(l[i])
        invariant
            pos <= i <= l@.len(),
            apara_inicio(l@.subrange(pos as int, l@.len() as int)) == apara_inicio(
                l@.subrange(i as int, l@.len() as int),
            ),
        decreases l@.len() - i,
    {
        proof {
            lemma_apara_inicio_passo(l@, i as int);
        }
        i = i + 1;
    }
    i
}

fn argumentos_de(l: &[char], pos: usize) -> (r: Option<Vec<String>>)
    requires
        pos <= l@.len(),
    ensures
        match argumentos(l@.subrange(pos as int, l@.len() as int)) {
            Some(a) => r matches Some(v) && textos(v@) == a,
            None => r is None,
        },
{
    let n = l.len();
    let ghost total = argumentos(l@.subrange(pos as int, n as int));
    let mut v: Vec<String> = Vec::new();
    let mut p = pos;
    loop
        invariant
            n == l@.len(),
            pos <= p <= n,
            total == argumentos(l@.subrange(pos as int, n as int)),
            junto(textos(v@), argumentos(l@.subrange(p as int, n as int))) == total,
        decreases n - p,
    {
        let ghost r = l@.subrange(p as int, n as int);
        let i = pular_espacos(l, p);
        let ghost t = apara_inicio(r);
        assert(t == l@.subrange(i as int, n as int));
        if i == n {
            assert(t.len() == 0);
            assert(textos(v@) + seq![] =~= textos(v@));
            return Some(v);
        }
        let ghost antes = textos(v@);
        if l[i] == '"' {
            let mut k = i + 1;
            while k < n && l[k] != '"'
                invariant
                    n == l@.len(),
                    i < n,
                    i + 1 <= k <= n,
                    forall|j: int| i + 1 <= j < k ==> l@[j] != '"',
                decreases n - k,
            {
                k = k + 1;
            }
            let ghost s = t.drop_first();
            assert(s =~= l@.subrange(i + 1, n as int));
            proof {
                lemma_indice_em(s, '"', k - (i + 1));
            }
            if k == n {
                return None;
            }
            let arg = texto_de(&trecho(l, i + 1, k));
            assert(s.subrange(0, k - (i + 1)) =~= arg@);
            assert(s.subrange(k - (i + 1) + 1, s.len() as int) =~= l@.subrange(k + 1, n as int));
            v.push(arg);
            assert(textos(v@) =~= antes.push(arg@));
            assert(antes.push(arg@) + argumentos(l@.subrange(k + 1, n as int)).unwrap() =~= antes
                + (seq![arg@] + argumentos(l@.subrange(k + 1, n as int)).unwrap()));
            p = k + 1;
        } else {
            let mut k = i;
            while k < n && !e_espaco(l[k])
                invariant
                    n == l@.len(),
                    i <= k <= n,
                    forall|j: int| i <= j < k ==> !espaco(l@[j]),
                decreases n - k,
            {
                k = k + 1;
            }
            proof {
                assert forall|j: int| 0 <= j < k - i implies !espaco(#[trigger] t[j]) by {
                    assert(t[j] == l@[i + j]);
                }
                lemma_primeiro_espaco_em(t, k - i);
            }
            let arg = texto_de(&trecho(l, i, k));
            assert(t.subrange(0, k - i) =~= arg@);
            assert(t.subrange(k - i, t.len() as int) =~= l@.subrange(k as int, n as int));
            v.push(arg);
            assert(textos(v@) =~= antes.push(arg@));
            assert(antes.push(arg@) + argumentos(l@.subrange(k as int, n as int)).unwrap() =~= antes
                + (seq![arg@] + argumentos(l@.subrange(k as int, n as int)).unwrap()));
            p = k;
        }
    }
}

fn com_argumentos(exe: Vec<char>, l: &[char], pos: usize) -> (r: Result<
    (String, Vec<String>),
    ErroInicializacao,
>)
    requires
        pos <= l@.len(),
    ensures
        match depois_do_programa(exe@, l@.subrange(pos as int, l@.len() as int)) {
            Ok((e, a)) => r matches Ok((x, v)) && x@ == e && textos(v@) == a,
            Err(k) => r == Err::<(String, Vec<String>), ErroInicializacao>(k),
        },
{
    if exe.len() == 0 {
        return Err(ErroInicializacao::CaminhoVazio);
    }
    match argumentos_de(l, pos) {
        Some(v) => Ok((texto_de(&exe), v)),
        None => Err(ErroInicializacao::AspasNoArgumento),
    }
}

/// Splits the uninstall command line the setup registered into the program
/// and its arguments.
pub fn separar_linha_de_comando(linha: &str) -> (r: Result<(String, Vec<String>), ErroInicializacao>)
    ensures
        match linha_de_comando(linha@) {
            Ok((e, a)) => r matches Ok((x, v)) && x@ == e && textos(v@) == a,
            Err(k) => r == Err::<(String, Vec<String>), ErroInicializacao>(k),
        },
{
    let c = caracteres(linha);
    let (i, j) = limites_aparados(&c);
    let l = trecho(&c, i, j);
    let n = l.len();
    if n == 0 {
        return Err(ErroInicializacao::LinhaVazia);
    }
    if l[0] == '"' {
        let mut k: usize = 1;
        while k < n && l[k] != '"'
            invariant
                n == l@.len(),
                1 <= k <= n,
                forall|m: int| 1 <= m < k ==> l@[m] != '"',
            decreases n - k,
        {
            k = k + 1;
        }
        let ghost s = l@.drop_first();
        proof {
            lemma_indice_em(s, '"', k - 1);
        }
        if k == n {
            return Err(ErroInicializacao::AspasNoCaminho);
        }
        let exe = trecho(&l, 1, k);
        assert(exe@ =~= s.subrange(0, k - 1));
        assert(s.subrange(k - 1 + 1, s.len() as int) =~= l@.subrange(k + 1, n as int));
        com_argumentos(exe, &l, k + 1)
    } else {
        let mut k: usize = 0;
        while k < n && !e_espaco(l[k])
            invariant
                n == l@.len(),
                k <= n,
                forall|m: int| 0 <= m < k ==> !espaco(l@[m]),
            decreases n - k,
        {
            k = k + 1;
        }
        proof {
            lemma_primeiro_espaco_em(l@, k as int);
        }
        let exe = trecho(&l, 0, k);
        com_argumentos(exe, &l, k)
    }
}

/// The uninstaller next to the window at `interface`.
pub fn desinstalador_vizinho(interface: &str) -> (r: Option<String>)
    ensures
        match pasta(interface@) {
            Some(p) => r matches Some(m) && m@ == juntado_windows(p, NOME_DESINSTALADOR@),
            None => r is None,
        },
{
    match pasta_de(interface) {
        Some(p) => Some(juntar_windows(p.as_str(), NOME_DESINSTALADOR)),
        None => None,
    }
}

/// The uninstaller and its arguments: the registered command line when
/// there is one, else `uninstall.exe` next to the window, when that file
/// exists (`vizinho_existe`), with no arguments.
pub fn desinstalador_e_argumentos(
    interface: &str,
    registrado: Option<String>,
    vizinho_existe: bool,
) -> (r: Result<(String, Vec<String>), ErroInicializacao>)
    ensures
        match registrado {
            Some(linha) => match linha_de_comando(linha@) {
                Ok((e, a)) => r matches Ok((x, v)) && x@ == e && textos(v@) == a,
                Err(k) => r == Err::<(String, Vec<String>), ErroInicializacao>(k),
            },
            None => match pasta(interface@) {
                None => r == Err::<(String, Vec<String>), ErroInicializacao>(
                    ErroInicializacao::SemPastaDaInterface,
                ),
                Some(p) => if vizinho_existe {
                    r matches Ok((x, v)) && x@ == juntado_windows(p, NOME_DESINSTALADOR@) && v@.len()
                        == 0
                } else {
                    r == Err::<(String, Vec<String>), ErroInicializacao>(
                        ErroInicializacao::SemDesinstalador,
                    )
                },
            },
        },
{
    match registrado {
        Some(linha) => separar_linha_de_comando(linha.as_str()),
        None => match desinstalador_vizinho(interface) {
            None => Err(ErroInicializacao::SemPastaDaInterface),
            Some(vizinho) => if vizinho_existe {
                Ok((vizinho, Vec::new()))
            } else {
                Err(ErroInicializacao::SemDesinstalador)
            },
        },
    }
}

/// The first registered command line that is not blank, in the order of
/// the keys.
pub open spec fn primeira_linha(vs: Seq<Option<String>>) -> Option<Seq<char>>
    decreases vs.len(),
{
    if vs.len() == 0 {
        None
    } else {
        match vs[0] {
            Some(l) => if apara(l@).len() > 0 {
                Some(l@)
            } else {
                primeira_linha(vs.drop_first())
            },
            None => primeira_linha(vs.drop_first()),
        }
    }
}

/// Of the values read under each key of `CHAVES_DESINSTALAR`, in order, the
/// first that is not blank.
pub fn linha_de_comando_registrada(valores: &[Option<String>]) -> (r: Option<String>)
    ensures
        match primeira_linha(valores@) {
            Some(l) => r matches Some(t) && t@ == l,
            None => r is None,
        },
{
    let mut i: usize = 0;
    assert(valores@.subrange(0, valores@.len() as int) =~= valores@);
    while i < valores.len()
        invariant
            i <= valores@.len(),
            primeira_linha(valores@) == primeira_linha(valores@.subrange(i as int, valores@.len() as int)),
        decreases valores@.len() - i,
    {
        let ghost resto = valores@.subrange(i as int, valores@.len() as int);
        assert(resto.drop_first() =~= valores@.subrange(i + 1, valores@.len() as int));
        match &valores[i] {
            Some(l) => {
                let c = caracteres(l.as_str());
                let (a, b) = limites_aparados(&c);
                if a < b {
                    return Some(texto_de(&c));
                }
            },
            None => {},
        }
        i = i + 1;
    }
    None
}

// ---------------------------------------------------------------------------
// What a command printed
// ---------------------------------------------------------------------------

/// `String::from_utf8_lossy` of the given bytes: a function of the bytes
/// alone, equal to their decoding when they are valid UTF-8.
pub uninterp spec fn utf8_com_perdas(b: Seq<u8>) -> Seq<char>;

/// `String::from_utf8_lossy` followed by `into_owned`. Trusted to be a
/// function of the bytes and to decode valid UTF-8 exactly; what replaces
/// invalid sequences is not stated.
#[verifier::external_body]
fn texto_utf8_com_perdas(bytes: &[u8]) -> (r: String)
    ensures
        r@ == utf8_com_perdas(bytes@),
        valid_utf8(bytes@) ==> r@ == decode_utf8(bytes@),
{
    String::from_utf8_lossy(bytes).into_owned()
}

/// The output starts with the UTF-16 byte-order mark.
pub open spec fn com_bom(b: Seq<u8>) -> bool {
    b.len() >= 2 && b[0] == 0xff && b[1] == 0xfe
}

/// Windows tools print UTF-16 when they start with the byte-order mark or
/// have a zero byte at an even position.
pub open spec fn parece_utf16(b: Seq<u8>) -> bool {
    com_bom(b) || exists|i: int| 0 <= i < b.len() && i % 2 == 0 && #[trigger] b[i] == 0
}

/// The text of what a command printed: UTF-16 (without the byte-order mark)
/// when it looks like UTF-16, else UTF-8 with replacement characters.
pub open spec fn saida_de(b: Seq<u8>) -> Seq<char> {
    if parece_utf16(b) {
        if com_bom(b) {
            decodificado(palavras(b).drop_first())
        } else {
            decodificado(palavras(b))
        }
    } else {
        utf8_com_perdas(b)
    }
}

pub fn texto_da_saida(bytes: &[u8]) -> (r: String)
    ensures
        r@ == saida_de(bytes@),
{
    let bom = bytes.len() >= 2 && bytes[0] == 0xff && bytes[1] == 0xfe;
    let pares = bytes.len() - bytes.len() / 2;
    let mut zero = false;
    let mut k: usize = 0;
    while k < pares
        invariant
            pares == bytes@.len() - bytes@.len() / 2,
            k <= pares,
            zero <==> exists|j: int| 0 <= j < 2 * k && j < bytes@.len() && j % 2 == 0 && #[trigger] bytes@[j] == 0,
        decreases pares - k,
    {
        assert(2 * k < bytes@.len()) by (nonlinear_arith)
            requires
                k < pares,
                pares == bytes@.len() - bytes@.len() / 2,
        ;
        let tamanho = bytes.len();
        assert(2 * k < tamanho);
        assert((2 * k) % 2 == 0) by (nonlinear_arith);
        if bytes[2 * k] == 0 {
            zero = true;
        }
        proof {
            assert forall|j: int| 0 <= j < 2 * (k + 1) && j < bytes@.len() && j % 2 == 0
                && #[trigger] bytes@[j] == 0 implies j < 2 * k || j == 2 * k by {
                if j == 2 * k + 1 {
                    assert((2 * k + 1) % 2 == 1) by (nonlinear_arith);
                }
            }
        }
        k = k + 1;
    }
    proof {
        assert forall|j: int| 0 <= j < bytes@.len() && j % 2 == 0 && #[trigger] bytes@[j] == 0 implies j < 2 * pares by {
            assert(j < 2 * pares) by (nonlinear_arith)
                requires
                    0 <= j < bytes@.len(),
                    j % 2 == 0,
                    pares == bytes@.len() - bytes@.len() / 2,
            ;
        }
    }
    if !(bom || zero) {
        return texto_utf8_com_perdas(bytes);
    }
    let n = bytes.len() / 2;
    let inicio: usize = if bom { 1 } else { 0 };
    let mut u: Vec<u16> = Vec::new();
    let mut k: usize = inicio;
    assert(bom ==> n >= 1);
    while k < n
        invariant
            n == bytes@.len() / 2,
            bom ==> n >= 1,
            inicio == (if bom { 1usize } else { 0usize }),
            inicio <= k <= n,
            u@ == palavras(bytes@).subrange(inicio as int, k as int),
        decreases n - k,
    {
        u.push(palavra_em(bytes, k));
        assert(u@ =~= palavras(bytes@).subrange(inicio as int, k + 1));
        k = k + 1;
    }
    proof {
        if bom {
            assert(n >= 1);
            assert(palavras(bytes@).drop_first() =~= palavras(bytes@).subrange(1, n as int));
        } else {
            assert(palavras(bytes@) =~= palavras(bytes@).subrange(0, n as int));
        }
    }
    let c = decodificar(&u);
    texto_de(&c)
}

} // verus!
