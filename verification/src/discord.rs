//! Which of the processes on the machine are Discord, and which one of them is
//! the main one.

use vstd::prelude::*;

use crate::processos::{achados, pids_por_nome, EntradaProcesso, Processo};
use std::collections::BTreeSet;
use vstd::laws_cmp::obeys_cmp;
use vstd::std_specs::cmp::OrdSpec;
use vstd::std_specs::iter::IteratorSpec;
use vstd::std_specs::btree::{increasing_seq, key_obeys_cmp_spec, spec_btree_keys_iter};

verus! {

/// The main Discord process, with the time it was born. The time goes along
/// because the system may reuse the PID of an old process for a new Discord.
#[derive(Clone, Copy, PartialEq, Eq, Debug, Structural)]
pub struct Identidade {
    pub pid: u32,
    pub criado_em: u64,
}

/// Strictly increasing: sorted and without repetitions.
pub open spec fn crescente(s: Seq<u32>) -> bool {
    forall|i: int, j: int| 0 <= i < j < s.len() ==> s[i] < s[j]
}

/// The PIDs of every process of `lista` that answers to one of `nomes`.
pub open spec fn pids_discord(lista: Seq<EntradaProcesso>, nomes: Seq<&str>) -> Set<u32> {
    Set::new(
        |pid: u32|
            exists|k: int, i: int|
                0 <= k < nomes.len() && 0 <= i < achados(lista, nomes[k]@).len() && #[trigger] achados(
                    lista,
                    nomes[k]@,
                )[i].pid == pid,
    )
}

/// PIDs compare as numbers, which a `BTreeSet` relies on.
spec fn pids_em_ordem() -> bool {
    obeys_cmp::<u32>()
}

/// A `BTreeSet` of PIDs orders them as numbers.
proof fn lemma_ordem_dos_pids()
    ensures
        pids_em_ordem(),
        key_obeys_cmp_spec::<u32>(),
{
    broadcast use {vstd::laws_cmp::group_laws_cmp, vstd::std_specs::btree::group_btree_axioms};

}

/// What a `BTreeSet` of PIDs hands out in its order is strictly increasing.
proof fn lemma_crescente_das_chaves(s: Seq<&u32>)
    requires
        pids_em_ordem(),
        increasing_seq(s),
    ensures
        crescente(s.unref()),
{
    broadcast use {vstd::laws_cmp::group_laws_cmp, vstd::std_specs::btree::group_btree_axioms};

    broadcast use vstd::laws_cmp::lemma_ref_obeys_cmp_spec;

    assert(obeys_cmp::<&u32>());
    vstd::std_specs::btree::axiom_increasing_seq_meaning::<&u32>(s);
    assert forall|i: int, j: int| 0 <= i < j < s.unref().len() implies s.unref()[i] < s.unref()[j] by {
        assert(OrdSpec::cmp_spec(&s[i], &s[j]) is Less);
    }
}

/// Every Discord PID on the machine, in increasing order, each once.
pub fn pids(lista: &[EntradaProcesso], nomes: &[&str]) -> (r: Vec<u32>)
    ensures
        crescente(r@),
        r@.to_set() == pids_discord(lista@, nomes@),
{
    broadcast use vstd::std_specs::btree::group_btree_axioms;

    proof {
        lemma_ordem_dos_pids();
    }
    let mut conjunto: BTreeSet<u32> = BTreeSet::new();
    let mut k: usize = 0;
    while k < nomes.len()
        invariant
            pids_em_ordem(),
            k <= nomes@.len(),
            conjunto@ == Set::new(
                |pid: u32|
                    exists|kk: int, i: int|
                        0 <= kk < k && 0 <= i < achados(lista@, nomes@[kk]@).len() && #[trigger] achados(
                            lista@,
                            nomes@[kk]@,
                        )[i].pid == pid,
            ),
        decreases nomes@.len() - k,
    {
        let estes = pids_por_nome(lista, nomes[k]);
        let ghost base = conjunto@;
        let mut i: usize = 0;
        while i < estes.len()
            invariant
                pids_em_ordem(),
                i <= estes@.len(),
                estes@ == achados(lista@, nomes@[k as int]@).map_values(|p: Processo| p.pid),
                conjunto@ == base.union(estes@.subrange(0, i as int).to_set()),
            decreases estes@.len() - i,
        {
            conjunto.insert(estes[i]);
            proof {
                assert(estes@.subrange(0, i + 1) =~= estes@.subrange(0, i as int).push(estes@[i as int]));
                estes@.subrange(0, i as int).lemma_push_to_set_commute(estes@[i as int]);
            }
            assert(conjunto@ =~= base.union(estes@.subrange(0, i + 1).to_set()));
            i = i + 1;
        }
        assert(estes@.subrange(0, estes@.len() as int) =~= estes@);
        let ghost achs = achados(lista@, nomes@[k as int]@);
        assert(conjunto@ =~= Set::new(
            |pid: u32|
                exists|kk: int, ii: int|
                    0 <= kk < k + 1 && 0 <= ii < achados(lista@, nomes@[kk]@).len() && #[trigger] achados(
                        lista@,
                        nomes@[kk]@,
                    )[ii].pid == pid,
        )) by {
            assert forall|pid: u32| conjunto@.contains(pid) implies exists|kk: int, ii: int|
                0 <= kk < k + 1 && 0 <= ii < achados(lista@, nomes@[kk]@).len() && #[trigger] achados(
                    lista@,
                    nomes@[kk]@,
                )[ii].pid == pid by {
                if !base.contains(pid) {
                    assert(estes@.to_set().contains(pid));
                    let m = choose|m: int| 0 <= m < estes@.len() && #[trigger] estes@[m] == pid;
                    assert(achs[m].pid == pid);
                }
            }
            assert forall|pid: u32| (exists|kk: int, ii: int|
                0 <= kk < k + 1 && 0 <= ii < achados(lista@, nomes@[kk]@).len() && #[trigger] achados(
                    lista@,
                    nomes@[kk]@,
                )[ii].pid == pid) implies conjunto@.contains(pid) by {
                let (kk, ii) = choose|kk: int, ii: int|
                    0 <= kk < k + 1 && 0 <= ii < achados(lista@, nomes@[kk]@).len() && #[trigger] achados(
                        lista@,
                        nomes@[kk]@,
                    )[ii].pid == pid;
                if kk == k {
                    assert(estes@[ii] == pid);
                    assert(estes@.to_set().contains(pid));
                }
            }
        }
        k = k + 1;
    }
    let ghost chaves = spec_btree_keys_iter(&conjunto).remaining();
    proof {
        lemma_crescente_das_chaves(chaves);
    }
    let mut r: Vec<u32> = Vec::new();
    for x in it: conjunto.iter()
        invariant
            it.seq() == chaves,
            r@ == chaves.unref().take(it.index()),
    {
        r.push(*x);
        assert(r@ =~= chaves.unref().take(it.index() + 1));
    }
    assert(r@ =~= chaves.unref());
    r
}

/// Some Discord process is up.
pub fn esta_rodando(lista: &[EntradaProcesso], nomes: &[&str]) -> (r: bool)
    ensures
        r == !pids_discord(lista@, nomes@).is_empty(),
{
    let p = pids(lista, nomes);
    proof {
        if p@.len() > 0 {
            assert(p@.to_set().contains(p@[0]));
        } else {
            assert(p@.to_set() =~= Set::<u32>::empty());
        }
    }
    p.len() > 0
}

// ---------------------------------------------------------------------------
// The main process
// ---------------------------------------------------------------------------

/// The ordering key of a candidate, as one integer: processes whose birth
/// time is known come first, then the oldest, then the lowest PID. It encodes
/// the tuple `(time unknown, time or 0, pid)` in lexicographic order.
pub open spec fn chave(h: Option<u64>, pid: u32) -> int {
    (if h is None {
        1int
    } else {
        0int
    }) * 0x1_0000_0000_0000_0000_0000_0000 + (match h {
        Some(t) => t as int,
        None => 0int,
    }) * 0x1_0000_0000 + pid as int
}

/// A parent that was born no later than its child; without the time of one
/// of the two, the PID alone decides.
pub open spec fn nasceu_antes(pai: Option<u64>, filho: Option<u64>) -> bool {
    match (pai, filho) {
        (Some(a), Some(b)) => a <= b,
        _ => true,
    }
}

/// Process `i` has a real Discord parent in the list.
pub open spec fn tem_pai(p: Seq<Processo>, h: Seq<Option<u64>>, i: int) -> bool {
    exists|j: int| 0 <= j < p.len() && #[trigger] p[j].pid == p[i].pai && nasceu_antes(h[j], h[i])
}

pub open spec fn e_raiz(p: Seq<Processo>, h: Seq<Option<u64>>, i: int) -> bool {
    !tem_pai(p, h, i)
}

pub open spec fn ha_raiz(p: Seq<Processo>, h: Seq<Option<u64>>) -> bool {
    exists|i: int| 0 <= i < p.len() && e_raiz(p, h, i)
}

/// Whether `i` may be chosen: a root when there is one, any process when the
/// tree has no root (a ghost parent made a cycle).
pub open spec fn candidato(p: Seq<Processo>, h: Seq<Option<u64>>, i: int) -> bool {
    0 <= i < p.len() && (ha_raiz(p, h) ==> e_raiz(p, h, i))
}

/// `i` is the first candidate with the smallest key (`min_by_key`).
pub open spec fn eleito(p: Seq<Processo>, h: Seq<Option<u64>>, i: int) -> bool {
    &&& candidato(p, h, i)
    &&& forall|j: int|
        #![trigger candidato(p, h, j)]
        candidato(p, h, j) ==> chave(h[i], p[i].pid) <= chave(h[j], p[j].pid) && (j < i ==> chave(
            h[i],
            p[i].pid,
        ) < chave(h[j], p[j].pid))
}

pub open spec fn identidade(p: Seq<Processo>, h: Seq<Option<u64>>, i: int) -> Identidade {
    Identidade {
        pid: p[i].pid,
        criado_em: match h[i] {
            Some(t) => t,
            None => 0,
        },
    }
}

/// What the choice of the main process returns, for processes `p` born at
/// times `h`.
pub open spec fn principal_de(
    p: Seq<Processo>,
    h: Seq<Option<u64>>,
    r: Option<Identidade>,
) -> bool {
    match r {
        None => p.len() == 0,
        Some(id) => exists|i: int| eleito(p, h, i) && id == identidade(p, h, i),
    }
}

fn chave_exec(h: Option<u64>, pid: u32) -> (k: u128)
    ensures
        k as int == chave(h, pid),
{
    match h {
        None => 0x1_0000_0000_0000_0000_0000_0000u128 + (pid as u128),
        Some(t) => (t as u128) * 0x1_0000_0000u128 + (pid as u128),
    }
}

/// The main process among `processos`, born at `horas`.
pub fn principal_com_horas(processos: &[Processo], horas: &[Option<u64>]) -> (r: Option<
    Identidade,
>)
    requires
        processos@.len() == horas@.len(),
    ensures
        principal_de(processos@, horas@, r),
{
    let n = processos.len();
    let ghost p = processos@;
    let ghost h = horas@;
    let mut raiz: Vec<bool> = Vec::new();
    let mut i: usize = 0;
    while i < n
        invariant
            n == p.len(),
            n == h.len(),
            p == processos@,
            h == horas@,
            i <= n,
            raiz@.len() == i,
            forall|k: int| 0 <= k < i ==> raiz@[k] == #[trigger] e_raiz(p, h, k),
        decreases n - i,
    {
        let mut achou = false;
        let mut j: usize = 0;
        while j < n
            invariant
                n == p.len(),
                n == h.len(),
                p == processos@,
                h == horas@,
                i < n,
                j <= n,
                achou <==> exists|m: int|
                    0 <= m < j && #[trigger] p[m].pid == p[i as int].pai && nasceu_antes(
                        h[m],
                        h[i as int],
                    ),
            decreases n - j,
        {
            let compativel = match (horas[j], horas[i]) {
                (Some(a), Some(b)) => a <= b,
                _ => true,
            };
            if processos[j].pid == processos[i].pai && compativel {
                achou = true;
            }
            j = j + 1;
        }
        raiz.push(!achou);
        i = i + 1;
    }
    let mut existe_raiz = false;
    let mut k: usize = 0;
    while k < n
        invariant
            n == p.len(),
            raiz@.len() == n,
            forall|m: int| 0 <= m < n ==> raiz@[m] == #[trigger] e_raiz(p, h, m),
            k <= n,
            existe_raiz <==> exists|m: int| 0 <= m < k && e_raiz(p, h, m),
        decreases n - k,
    {
        if raiz[k] {
            assert(e_raiz(p, h, k as int));
            existe_raiz = true;
        }
        k = k + 1;
    }
    assert(existe_raiz == ha_raiz(p, h));
    let mut melhor: Option<usize> = None;
    let mut melhor_chave: u128 = 0;
    let mut i: usize = 0;
    while i < n
        invariant
            n == p.len(),
            n == h.len(),
            p == processos@,
            h == horas@,
            raiz@.len() == n,
            forall|m: int| 0 <= m < n ==> raiz@[m] == #[trigger] e_raiz(p, h, m),
            existe_raiz == ha_raiz(p, h),
            i <= n,
            melhor is None ==> forall|j: int| 0 <= j < i ==> !#[trigger] candidato(p, h, j),
            melhor matches Some(m) ==> {
                &&& m < i
                &&& candidato(p, h, m as int)
                &&& melhor_chave as int == chave(h[m as int], p[m as int].pid)
                &&& forall|j: int|
                    #![trigger candidato(p, h, j)]
                    0 <= j < i && candidato(p, h, j) ==> chave(h[m as int], p[m as int].pid) <= chave(
                        h[j],
                        p[j].pid,
                    ) && (j < m ==> chave(h[m as int], p[m as int].pid) < chave(h[j], p[j].pid))
            },
        decreases n - i,
    {
        let e_candidato = raiz[i] || !existe_raiz;
        assert(e_candidato == candidato(p, h, i as int));
        if e_candidato {
            let c = chave_exec(horas[i], processos[i].pid);
            let trocar = match melhor {
                None => true,
                Some(_) => c < melhor_chave,
            };
            if trocar {
                melhor = Some(i);
                melhor_chave = c;
            }
        }
        i = i + 1;
    }
    match melhor {
        None => {
            proof {
                if p.len() > 0 {
                    if ha_raiz(p, h) {
                        let m = choose|m: int| 0 <= m < p.len() && e_raiz(p, h, m);
                        assert(candidato(p, h, m));
                    } else {
                        assert(candidato(p, h, 0));
                    }
                }
            }
            None
        },
        Some(m) => {
            let id = Identidade {
                pid: processos[m].pid,
                criado_em: match horas[m] {
                    Some(t) => t,
                    None => 0,
                },
            };
            assert(eleito(p, h, m as int));
            Some(id)
        },
    }
}

/// The main Discord process among `processos`, asking `criado_em` the birth
/// time of each.
///
/// Discord runs several processes: the main one and children (GPU,
/// renderers, utilities). Children are born and die during use; the main one
/// does not. It is the only one whose parent is not another Discord process,
/// where a parent counts only if it was born before its child. Among the
/// candidates, the oldest wins, and one with a known time wins over one
/// without. With Discord in the list there is always an answer.
pub fn principal_entre(processos: &[Processo], criado_em: impl Fn(u32) -> Option<u64>) -> (r:
    Option<Identidade>)
    requires
        forall|pid: u32| #[trigger] criado_em.requires((pid,)),
    ensures
        exists|h: Seq<Option<u64>>|
            {
                &&& h.len() == processos@.len()
                &&& forall|i: int|
                    0 <= i < h.len() ==> #[trigger] criado_em.ensures((processos@[i].pid,), h[i])
                &&& principal_de(processos@, h, r)
            },
{
    let mut horas: Vec<Option<u64>> = Vec::new();
    let mut i: usize = 0;
    while i < processos.len()
        invariant
            forall|pid: u32| #[trigger] criado_em.requires((pid,)),
            i <= processos@.len(),
            horas@.len() == i,
            forall|k: int|
                0 <= k < i ==> #[trigger] criado_em.ensures((processos@[k].pid,), horas@[k]),
        decreases processos@.len() - i,
    {
        let t = criado_em(processos[i].pid);
        horas.push(t);
        i = i + 1;
    }
    principal_com_horas(processos, &horas)
}

/// The main Discord process on the machine: among the processes of `lista`
/// that answer to one of `nomes`, in the order of the names.
pub fn principal(
    lista: &[EntradaProcesso],
    nomes: &[&str],
    criado_em: impl Fn(u32) -> Option<u64>,
) -> (r: Option<Identidade>)
    requires
        forall|pid: u32| #[trigger] criado_em.requires((pid,)),
    ensures
        exists|p: Seq<Processo>, h: Seq<Option<u64>>|
            {
                &&& p == processos_com_nomes(lista@, nomes@)
                &&& h.len() == p.len()
                &&& forall|i: int| 0 <= i < h.len() ==> #[trigger] criado_em.ensures((p[i].pid,), h[i])
                &&& principal_de(p, h, r)
            },
{
    let mut todos: Vec<Processo> = Vec::new();
    let mut k: usize = 0;
    while k < nomes.len()
        invariant
            k <= nomes@.len(),
            todos@ == processos_com_nomes(lista@, nomes@.subrange(0, k as int)),
        decreases nomes@.len() - k,
    {
        let estes = crate::processos::processos_por_nome(lista, nomes[k]);
        let mut i: usize = 0;
        let ghost base = todos@;
        while i < estes.len()
            invariant
                i <= estes@.len(),
                todos@ == base + estes@.subrange(0, i as int),
            decreases estes@.len() - i,
        {
            todos.push(estes[i]);
            assert(base + estes@.subrange(0, i + 1) =~= (base + estes@.subrange(0, i as int)).push(
                estes@[i as int],
            ));
            i = i + 1;
        }
        assert(estes@.subrange(0, estes@.len() as int) =~= estes@);
        assert(nomes@.subrange(0, k + 1).drop_last() =~= nomes@.subrange(0, k as int));
        k = k + 1;
    }
    assert(nomes@.subrange(0, nomes@.len() as int) =~= nomes@);
    let r = principal_entre(&todos, criado_em);
    r
}

/// The processes of `lista` answering to each of `nomes`, name after name.
pub open spec fn processos_com_nomes(lista: Seq<EntradaProcesso>, nomes: Seq<&str>) -> Seq<Processo>
    decreases nomes.len(),
{
    if nomes.len() == 0 {
        seq![]
    } else {
        processos_com_nomes(lista, nomes.drop_last()) + achados(lista, nomes.last()@)
    }
}

// ---------------------------------------------------------------------------
// Laws
// ---------------------------------------------------------------------------

/// A Discord that is up never becomes `None`: with any process in the list,
/// some process is chosen.
pub proof fn lei_discord_de_pe_tem_principal(
    p: Seq<Processo>,
    h: Seq<Option<u64>>,
    r: Option<Identidade>,
)
    requires
        principal_de(p, h, r),
        p.len() > 0,
    ensures
        r is Some,
{
}

/// The choice is a function of the processes and their times: two answers
/// for the same list are the same answer.
pub proof fn lei_principal_e_unico(
    p: Seq<Processo>,
    h: Seq<Option<u64>>,
    r1: Option<Identidade>,
    r2: Option<Identidade>,
)
    requires
        h.len() == p.len(),
        principal_de(p, h, r1),
        principal_de(p, h, r2),
    ensures
        r1 == r2,
{
    if r1 is Some && r2 is Some {
        let i = choose|i: int| eleito(p, h, i) && r1 == Some(identidade(p, h, i));
        let j = choose|j: int| eleito(p, h, j) && r2 == Some(identidade(p, h, j));
        assert(candidato(p, h, i));
        assert(candidato(p, h, j));
        if i < j {
            assert(chave(h[j], p[j].pid) < chave(h[i], p[i].pid));
        } else if j < i {
            assert(chave(h[i], p[i].pid) < chave(h[j], p[j].pid));
        }
    } else if r1 is Some {
        let i = choose|i: int| eleito(p, h, i) && r1 == Some(identidade(p, h, i));
        assert(candidato(p, h, i));
    } else if r2 is Some {
        let j = choose|j: int| eleito(p, h, j) && r2 == Some(identidade(p, h, j));
        assert(candidato(p, h, j));
    }
}

} // verus!
