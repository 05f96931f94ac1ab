//! Processes as the system's process snapshot lists them, and the search by
//! image name that the rest of the crate builds on.
//!
//! The snapshot itself is taken by the caller; this module works on its rows.

use vstd::prelude::*;

use crate::texto::caracteres;
use crate::utf16::{codificado, codificar};

verus! {

/// A process seen in the system's list: who it is and who created it. The
/// parent is the PID the system noted at creation; if that parent already
/// died, the number may have been reused by any other program.
#[derive(Clone, Copy, PartialEq, Eq, Debug, Structural)]
pub struct Processo {
    pub pid: u32,
    pub pai: u32,
}

/// One row of the process snapshot: the image name as the system stores it
/// (a NUL-terminated buffer of UTF-16 code units), the PID and the parent's.
pub struct EntradaProcesso {
    pub nome: Vec<u16>,
    pub pid: u32,
    pub pai: u32,
}

/// ASCII lower case of a code unit; anything above 255 is kept.
pub open spec fn minuscula_u16(c: u16) -> u16 {
    if 65 <= c && c <= 90 {
        (c + 32) as u16
    } else {
        c
    }
}

pub fn caixa_baixa(c: u16) -> (r: u16)
    ensures
        r == minuscula_u16(c),
{
    if 65 <= c && c <= 90 {
        c + 32
    } else {
        c
    }
}

/// Length of the name held in a NUL-terminated buffer: up to the first NUL,
/// or the whole buffer.
pub open spec fn fim_do_nome(bruto: Seq<u16>) -> int
    decreases bruto.len(),
{
    if bruto.len() == 0 {
        0
    } else if bruto[0] == 0 {
        0
    } else {
        1 + fim_do_nome(bruto.drop_first())
    }
}

/// The name in the buffer equals `procurado`, ignoring ASCII case, the way
/// the system compares executable names.
pub open spec fn nome_confere(bruto: Seq<u16>, procurado: Seq<u16>) -> bool {
    let nome = bruto.subrange(0, fim_do_nome(bruto));
    &&& nome.len() == procurado.len()
    &&& forall|i: int| 0 <= i < nome.len() ==> minuscula_u16(#[trigger] nome[i]) == minuscula_u16(
        procurado[i],
    )
}

proof fn lemma_fim_do_nome(bruto: Seq<u16>, k: int)
    requires
        0 <= k <= bruto.len(),
        k < bruto.len() ==> bruto[k] == 0,
        forall|j: int| 0 <= j < k ==> bruto[j] != 0,
    ensures
        fim_do_nome(bruto) == k,
    decreases bruto.len(),
{
    if bruto.len() > 0 && bruto[0] != 0 {
        assert forall|j: int| 0 <= j < k - 1 implies bruto.drop_first()[j] != 0 by {
            assert(bruto.drop_first()[j] == bruto[j + 1]);
        }
        lemma_fim_do_nome(bruto.drop_first(), k - 1);
    }
}

/// `szExeFile` is a fixed NUL-terminated buffer: comparing the whole buffer
/// would find garbage after the name.
pub fn mesmo_nome(bruto: &[u16], procurado: &[u16]) -> (r: bool)
    ensures
        r == nome_confere(bruto@, procurado@),
{
    let mut fim: usize = 0;
    while fim < bruto.len() && bruto[fim] != 0
        invariant
            fim <= bruto@.len(),
            forall|j: int| 0 <= j < fim ==> bruto@[j] != 0,
        decreases bruto@.len() - fim,
    {
        fim = fim + 1;
    }
    proof {
        lemma_fim_do_nome(bruto@, fim as int);
    }
    if fim != procurado.len() {
        return false;
    }
    let mut i: usize = 0;
    while i < fim
        invariant
            fim == procurado@.len(),
            fim <= bruto@.len(),
            fim_do_nome(bruto@) == fim,
            i <= fim,
            forall|j: int| 0 <= j < i ==> minuscula_u16(#[trigger] bruto@[j]) == minuscula_u16(
                procurado@[j],
            ),
        decreases fim - i,
    {
        if caixa_baixa(bruto[i]) != caixa_baixa(procurado[i]) {
            assert(bruto@.subrange(0, fim as int)[i as int] == bruto@[i as int]);
            return false;
        }
        i = i + 1;
    }
    assert forall|j: int| 0 <= j < fim implies minuscula_u16(
        #[trigger] bruto@.subrange(0, fim as int)[j],
    ) == minuscula_u16(procurado@[j]) by {
        assert(bruto@.subrange(0, fim as int)[j] == bruto@[j]);
    }
    true
}

/// The rows of `lista` whose name is `nome`, in the order of the list.
pub open spec fn achados(lista: Seq<EntradaProcesso>, nome: Seq<char>) -> Seq<Processo>
    decreases lista.len(),
{
    if lista.len() == 0 {
        seq![]
    } else {
        let e = lista.last();
        let antes = achados(lista.drop_last(), nome);
        if nome_confere(e.nome@, codificado(nome)) {
            antes.push(Processo { pid: e.pid, pai: e.pai })
        } else {
            antes
        }
    }
}

/// Every process of the snapshot whose image name is `nome`, ignoring ASCII
/// case.
pub fn processos_por_nome(lista: &[EntradaProcesso], nome: &str) -> (r: Vec<Processo>)
    ensures
        r@ == achados(lista@, nome@),
{
    let chars = caracteres(nome);
    let procurado = codificar(&chars);
    let mut r: Vec<Processo> = Vec::new();
    let mut i: usize = 0;
    while i < lista.len()
        invariant
            i <= lista@.len(),
            procurado@ == codificado(nome@),
            r@ == achados(lista@.subrange(0, i as int), nome@),
        decreases lista@.len() - i,
    {
        assert(lista@.subrange(0, i + 1).drop_last() =~= lista@.subrange(0, i as int));
        if mesmo_nome(&lista[i].nome, &procurado) {
            r.push(Processo { pid: lista[i].pid, pai: lista[i].pai });
        }
        i = i + 1;
    }
    assert(lista@.subrange(0, lista@.len() as int) =~= lista@);
    r
}

/// Only the PIDs, for whoever does not care about the tree.
pub fn pids_por_nome(lista: &[EntradaProcesso], nome: &str) -> (r: Vec<u32>)
    ensures
        r@ == achados(lista@, nome@).map_values(|p: Processo| p.pid),
{
    let achados_v = processos_por_nome(lista, nome);
    let mut r: Vec<u32> = Vec::new();
    let mut i: usize = 0;
    while i < achados_v.len()
        invariant
            i <= achados_v@.len(),
            r@ == achados_v@.subrange(0, i as int).map_values(|p: Processo| p.pid),
        decreases achados_v@.len() - i,
    {
        r.push(achados_v[i].pid);
        assert(achados_v@.subrange(0, i + 1).map_values(|p: Processo| p.pid) =~= achados_v@.subrange(
            0,
            i as int,
        ).map_values(|p: Processo| p.pid).push(achados_v@[i as int].pid));
        i = i + 1;
    }
    assert(achados_v@.subrange(0, achados_v@.len() as int) =~= achados_v@);
    r
}

/// Some process of the snapshot answers to `nome`.
pub fn esta_rodando(lista: &[EntradaProcesso], nome: &str) -> (r: bool)
    ensures
        r == (achados(lista@, nome@).len() > 0),
{
    let pids = pids_por_nome(lista, nome);
    pids.len() > 0
}

/// Creation time of a process as the system keeps it (hundreds of
/// nanoseconds since 1601), from the two halves of its `FILETIME`; `None`
/// when the process is gone or may not be asked.
pub fn criado_em(tempos: Option<(u32, u32)>) -> (r: Option<u64>)
    ensures
        tempos is None ==> r is None,
        tempos matches Some((alta, baixa)) ==> r == Some((alta as nat * 0x1_0000_0000 + baixa as nat) as u64),
{
    match tempos {
        None => None,
        Some((alta, baixa)) => {
            let r = (alta as u64) * 0x1_0000_0000 + (baixa as u64);
            Some(r)
        },
    }
}

} // verus!
