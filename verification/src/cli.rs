//! The command line of the service: what its arguments ask for, where its
//! files live, and the few texts it writes for the window to read.

use vstd::prelude::*;

use crate::caminhos::{juntado_em, juntar_em, Sistema};
use crate::linux::{pasta_dados_de, Ambiente};
use crate::processos::{achados, pids_por_nome, EntradaProcesso, Processo};
use crate::texto::{
    anexar_str, caracteres, comeca, comeca_com, decimal, escrever_decimal, iguais_str, texto_de,
};

verus! {

pub const PORTA_SOCKS: u16 = 9250;

pub const PORTA_PAC: u16 = 9251;

/// Below this many healthy proxies the maintenance refills the pool.
pub const MINIMO_SAUDAVEIS: usize = 3;

/// How many times the installer checks that the service is ready.
pub const TENTATIVAS_PRONTIDAO: u32 = 15;

/// Seconds between two of those checks.
pub const INTERVALO_PRONTIDAO_S: u64 = 4;

/// What the installer does after a check of the service.
#[derive(Clone, Copy, PartialEq, Eq, Debug, Structural)]
pub enum Espera {
    /// Not ready yet: wait another interval and check again.
    Continuar,
    /// The service listens and its pool has proxies: the fix is on.
    Pronta,
    /// No proxy answered in time; the service goes on trying by itself.
    Desistir,
}

/// Decides after the check numbered `tentativa` (the first is 0): ready
/// when the SOCKS port is taken and the pool's marker exists; otherwise
/// another round, until `TENTATIVAS_PRONTIDAO` checks have been made.
pub fn passo_prontidao(tentativa: u32, porta_ocupada: bool, marcador: bool) -> (r: Espera)
    ensures
        porta_ocupada && marcador ==> r == Espera::Pronta,
        !(porta_ocupada && marcador) && tentativa + 1 >= TENTATIVAS_PRONTIDAO ==> r == Espera::Desistir,
        !(porta_ocupada && marcador) && tentativa + 1 < TENTATIVAS_PRONTIDAO ==> r == Espera::Continuar,
{
    if porta_ocupada && marcador {
        Espera::Pronta
    } else if tentativa >= TENTATIVAS_PRONTIDAO - 1 {
        Espera::Desistir
    } else {
        Espera::Continuar
    }
}

/// The pool's marker stands exactly while the pool has some proxy, so that
/// `status` does not claim proxies that are gone.
pub fn marcador_pronto(quantidade: usize) -> (r: bool)
    ensures
        r == (quantidade > 0),
{
    quantidade > 0
}

#[derive(Clone, Copy, PartialEq, Eq, Debug, Structural)]
pub struct OpcoesInstalar {
    pub reiniciar_discord: bool,
    pub criar_run_legado: bool,
}

/// Some argument is exactly `opcao`.
pub open spec fn tem_argumento(args: Seq<String>, opcao: Seq<char>) -> bool {
    exists|i: int| 0 <= i < args.len() && #[trigger] args[i]@ == opcao
}

fn tem_argumento_exec(args: &[String], opcao: &str) -> (r: bool)
    ensures
        r == tem_argumento(args@, opcao@),
{
    let mut i: usize = 0;
    while i < args.len()
        invariant
            i <= args@.len(),
            forall|j: int| 0 <= j < i ==> #[trigger] args@[j]@ != opcao@,
        decreases args@.len() - i,
    {
        let a = caracteres(args[i].as_str());
        if iguais_str(&a, opcao) {
            assert(args@[i as int]@ == opcao@);
            return true;
        }
        i = i + 1;
    }
    false
}

/// `instalar` restarts Discord unless `--sem-reiniciar`, and creates the
/// legacy autostart entry unless `--sem-autostart`.
pub fn opcoes_instalar(args: &[String]) -> (r: OpcoesInstalar)
    ensures
        r.reiniciar_discord == !tem_argumento(args@, "--sem-reiniciar"@),
        r.criar_run_legado == !tem_argumento(args@, "--sem-autostart"@),
{
    OpcoesInstalar {
        reiniciar_discord: !tem_argumento_exec(args, "--sem-reiniciar"),
        criar_run_legado: !tem_argumento_exec(args, "--sem-autostart"),
    }
}

/// `desinstalar --manter-arquivos` cleans the configuration but keeps the
/// installed folder.
pub fn manter_arquivos(args: &[String]) -> (r: bool)
    ensures
        r == tem_argumento(args@, "--manter-arquivos"@),
{
    tem_argumento_exec(args, "--manter-arquivos")
}

/// The first argument that is not an option (`--...`), if any.
pub open spec fn primeiro_comando(args: Seq<String>) -> Option<Seq<char>>
    decreases args.len(),
{
    if args.len() == 0 {
        None
    } else if !comeca(args[0]@, "--"@) {
        Some(args[0]@)
    } else {
        primeiro_comando(args.drop_first())
    }
}

/// The command asked for: the first argument that is not an option, or
/// `ajuda` when there is none.
pub fn comando(args: &[String]) -> (r: String)
    ensures
        r@ == match primeiro_comando(args@) {
            Some(c) => c,
            None => "ajuda"@,
        },
{
    let traco = caracteres("--");
    let mut i: usize = 0;
    assert(args@.subrange(0, args@.len() as int) =~= args@);
    while i < args.len()
        invariant
            i <= args@.len(),
            traco@ == "--"@,
            primeiro_comando(args@) == primeiro_comando(args@.subrange(i as int, args@.len() as int)),
        decreases args@.len() - i,
    {
        let a = caracteres(args[i].as_str());
        let ghost resto = args@.subrange(i as int, args@.len() as int);
        assert(resto[0] == args@[i as int]);
        if !comeca_com(&a, &traco) {
            return texto_de(&a);
        }
        assert(resto.drop_first() =~= args@.subrange(i + 1, args@.len() as int));
        i = i + 1;
    }
    let r = caracteres("ajuda");
    texto_de(&r)
}

/// Position of the first argument equal to `alvo`.
pub open spec fn posicao_argumento(args: Seq<String>, alvo: Seq<char>) -> Option<int> {
    if tem_argumento(args, alvo) {
        Some(
            choose|i: int|
                0 <= i < args.len() && #[trigger] args[i]@ == alvo && forall|j: int|
                    0 <= j < i ==> args[j]@ != alvo,
        )
    } else {
        None
    }
}

/// The arguments handed to Discord by `abrir-discord`: everything after the
/// first `abrir-discord`, or nothing when it is absent.
pub fn extras_abrir_discord(args: &[String]) -> (r: Vec<String>)
    ensures
        posicao_argumento(args@, "abrir-discord"@) matches Some(p) ==> r@ == args@.subrange(
            p + 1,
            args@.len() as int,
        ),
        posicao_argumento(args@, "abrir-discord"@) is None ==> r@.len() == 0,
{
    let mut i: usize = 0;
    while i < args.len()
        invariant
            i <= args@.len(),
            forall|j: int| 0 <= j < i ==> #[trigger] args@[j]@ != "abrir-discord"@,
        decreases args@.len() - i,
    {
        let a = caracteres(args[i].as_str());
        if iguais_str(&a, "abrir-discord") {
            assert(args@[i as int]@ == "abrir-discord"@);
            let mut r: Vec<String> = Vec::new();
            let mut k: usize = i + 1;
            while k < args.len()
                invariant
                    i < k <= args@.len(),
                    r@ == args@.subrange(i + 1, k as int),
                decreases args@.len() - k,
            {
                r.push(args[k].clone());
                assert(args@.subrange(i + 1, k + 1) =~= args@.subrange(i + 1, k as int).push(
                    args@[k as int],
                ));
                k = k + 1;
            }
            proof {
                let p = posicao_argumento(args@, "abrir-discord"@)->0;
                assert(tem_argumento(args@, "abrir-discord"@));
                if p < i {
                    assert(args@[p]@ != "abrir-discord"@);
                } else if p > i {
                    assert(args@[i as int]@ != "abrir-discord"@);
                }
            }
            return r;
        }
        i = i + 1;
    }
    Vec::new()
}

/// Where the window fetches the PAC: `http://127.0.0.1:9251/proxy.pac`.
pub open spec fn url_pac_de() -> Seq<char> {
    "http://127.0.0.1:"@ + decimal(PORTA_PAC as nat) + "/proxy.pac"@
}

pub fn url_pac() -> (r: String)
    ensures
        r@ == url_pac_de(),
{
    let mut v = caracteres("http://127.0.0.1:");
    escrever_decimal(PORTA_PAC as u64, &mut v);
    anexar_str(&mut v, "/proxy.pac");
    texto_de(&v)
}

/// The service's data folder.
pub fn pasta_dados(a: &Ambiente) -> (r: String)
    ensures
        r@ == pasta_dados_de(*a),
{
    crate::linux::pasta_dados(a)
}

/// The log, inside the data folder.
pub fn caminho_log(pasta_dados: &str, sistema: Sistema) -> (r: String)
    ensures
        r@ == juntado_em(sistema, pasta_dados@, "fol.log"@),
{
    juntar_em(sistema, pasta_dados, "fol.log")
}

/// The marker the service writes when the pool has usable proxies. A file,
/// not a line in the log: the log survives between installations.
pub fn caminho_marcador(pasta_dados: &str, sistema: Sistema) -> (r: String)
    ensures
        r@ == juntado_em(sistema, pasta_dados@, "pronto"@),
{
    juntar_em(sistema, pasta_dados, "pronto")
}

/// The instant of the last maintenance pass, in milliseconds of epoch: what
/// the window shows as the last validation.
pub fn caminho_ultima_validacao(pasta_dados: &str, sistema: Sistema) -> (r: String)
    ensures
        r@ == juntado_em(sistema, pasta_dados@, "ultima-validacao-ms"@),
{
    juntar_em(sistema, pasta_dados, "ultima-validacao-ms")
}

/// What the maintenance pass writes in that file: the milliseconds in
/// decimal, and a line break.
pub fn conteudo_checagem(instante: u64) -> (r: String)
    ensures
        r@ == decimal(instante as nat) + "\n"@,
{
    let mut v: Vec<char> = Vec::new();
    escrever_decimal(instante, &mut v);
    anexar_str(&mut v, "\n");
    texto_de(&v)
}

pub fn sim_nao(b: bool) -> (r: &'static str)
    ensures
        b ==> r@ == "sim"@,
        !b ==> r@ == "não"@,
{
    if b {
        "sim"
    } else {
        "não"
    }
}

/// Old copies of the service to terminate: every process with its image
/// name except this one, since the installer carries the same name.
pub fn outras_instancias(lista: &[EntradaProcesso], nome: &str, eu: u32) -> (r: Vec<u32>)
    ensures
        r@ == achados(lista@, nome@).map_values(|p: Processo| p.pid).filter(|pid: u32| pid != eu),
{
    let todos = pids_por_nome(lista, nome);
    let mut r: Vec<u32> = Vec::new();
    let mut i: usize = 0;
    while i < todos.len()
        invariant
            i <= todos@.len(),
            r@ == todos@.subrange(0, i as int).filter(|pid: u32| pid != eu),
        decreases todos@.len() - i,
    {
        reveal_with_fuel(Seq::filter, 1);
        assert(todos@.subrange(0, i + 1).drop_last() =~= todos@.subrange(0, i as int));
        if todos[i] != eu {
            r.push(todos[i]);
        }
        i = i + 1;
    }
    assert(todos@.subrange(0, todos@.len() as int) =~= todos@);
    r
}


// ---------------------------------------------------------------------------
// The log lines of the pool's maintenance
// ---------------------------------------------------------------------------

/// What follows the count of validated proxies in the log.
pub const SUFIXO_VALIDADOS: &'static str = " proxies estrangeiros validados";

/// The line that announces how many proxies a refill validated.
pub fn linha_validados(n: u64) -> (r: String)
    ensures
        r@ == decimal(n as nat) + SUFIXO_VALIDADOS@,
{
    let mut v: Vec<char> = Vec::new();
    escrever_decimal(n, &mut v);
    anexar_str(&mut v, SUFIXO_VALIDADOS);
    texto_de(&v)
}

} // verus!
