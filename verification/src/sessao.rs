//! Where in the life of its session Discord is.
//!
//! The foreign address is read only once, when the session is born; from
//! then on the region is decided and recorded in it. So diverting through the
//! foreign exit only makes sense during the opening. This state machine opens
//! a window when Discord appears, closes it when the opening burst is over,
//! and tells its caller when to drop what stayed on the foreign exit.
//!
//! Times are milliseconds on a monotonic clock chosen by the caller.

use vstd::prelude::*;

use std::collections::HashSet;

verus! {

/// Silence that declares the opening burst over: 30 seconds after the last
/// control connection, as timed on a real opening.
pub const SILENCIO: u64 = 30_000;

/// Absolute ceiling of the window: it closes even if control traffic never
/// stops.
pub const TETO: u64 = 120_000;

/// Empty readings of the process list in a row before Discord is taken as
/// closed: under load a single reading can come back empty.
pub const LEITURAS_VAZIAS: u32 = 3;

#[derive(Clone, Copy, PartialEq, Eq, Debug, Structural)]
pub enum Fase {
    /// The session is being born: the address seen now is the one that counts.
    Abertura,
    /// The region is decided. Nothing more needs to leave through the exit.
    Estabelecida,
}

/// The state of the window, as numbers and sets.
pub ghost struct SessaoV {
    pub fase: Fase,
    pub armada_em: nat,
    pub ultima_controle: Option<nat>,
    /// Discord's processes as last seen.
    pub pids: Set<u32>,
    /// Empty readings in a row since Discord was last seen.
    pub vazias: nat,
}

pub struct Sessao {
    fase: Fase,
    armada_em: u64,
    ultima_controle: Option<u64>,
    pids_discord: HashSet<u32>,
    vazias: u32,
}

/// `a - b`, but never below zero (`Instant::saturating_duration_since`).
pub open spec fn decorrido(a: nat, b: nat) -> nat {
    if a >= b {
        (a - b) as nat
    } else {
        0
    }
}

/// One pass of the evaluation: the new state, and whether this pass closed
/// the window.
pub open spec fn avaliado(s: SessaoV, agora: nat, ha_exterior: bool) -> (SessaoV, bool) {
    if s.fase == Fase::Estabelecida {
        (s, false)
    } else if !ha_exterior {
        (SessaoV { armada_em: agora, ultima_controle: None, ..s }, false)
    } else {
        let referencia = match s.ultima_controle {
            Some(t) => t,
            None => s.armada_em,
        };
        let calou = decorrido(agora, referencia) >= SILENCIO;
        let estourou = decorrido(agora, s.armada_em) >= TETO;
        if !calou && !estourou {
            (s, false)
        } else {
            (SessaoV { fase: Fase::Estabelecida, ..s }, true)
        }
    }
}

/// A restart of Discord: processes are up and none of the previous ones
/// survived.
pub open spec fn reiniciou(anteriores: Set<u32>, atuais: Set<u32>) -> bool {
    !atuais.is_empty() && atuais.disjoint(anteriores)
}

/// One observation of Discord's processes: the new state, and whether the
/// window re-opened. An empty reading only counts; the processes seen last
/// are forgotten at the `LEITURAS_VAZIAS`-th empty reading in a row, when
/// Discord is taken as closed. A reading with processes resets the count.
pub open spec fn observado(s: SessaoV, atuais: Set<u32>, agora: nat) -> (SessaoV, bool) {
    if atuais.is_empty() {
        let vazias = if s.vazias < LEITURAS_VAZIAS {
            s.vazias + 1
        } else {
            s.vazias
        };
        if vazias >= LEITURAS_VAZIAS {
            (SessaoV { pids: Set::empty(), vazias: vazias as nat, ..s }, false)
        } else {
            (SessaoV { vazias: vazias as nat, ..s }, false)
        }
    } else if reiniciou(s.pids, atuais) {
        (
            SessaoV {
                fase: Fase::Abertura,
                armada_em: agora,
                ultima_controle: None,
                pids: atuais,
                vazias: 0,
            },
            true,
        )
    } else {
        (SessaoV { pids: atuais, vazias: 0, ..s }, false)
    }
}

impl Sessao {
    pub closed spec fn view(&self) -> SessaoV {
        SessaoV {
            fase: self.fase,
            armada_em: self.armada_em as nat,
            ultima_controle: match self.ultima_controle {
                Some(t) => Some(t as nat),
                None => None,
            },
            pids: self.pids_discord@,
            vazias: self.vazias as nat,
        }
    }

    /// A window armed at `agora`, with no Discord seen yet.
    pub fn nova(agora: u64) -> (s: Self)
        ensures
            s.view() == (SessaoV {
                fase: Fase::Abertura,
                armada_em: agora as nat,
                ultima_controle: None,
                pids: Set::empty(),
                vazias: 0,
            }),
    {
        Sessao {
            fase: Fase::Abertura,
            armada_em: agora,
            ultima_controle: None,
            pids_discord: HashSet::new(),
            vazias: 0,
        }
    }

    pub fn fase(&self) -> (f: Fase)
        ensures
            f == self.view().fase,
    {
        self.fase
    }

    /// Notes a connection to a host that decides the region. It is what
    /// feeds the silence.
    pub fn registrar_controle(&mut self, agora: u64)
        ensures
            final(self).view() == (SessaoV { ultima_controle: Some(agora as nat), ..old(self).view() }),
    {
        self.ultima_controle = Some(agora);
    }

    /// Closes the window when the silence or the ceiling has been reached.
    /// Returns `true` on the pass that closed it, and only on it: the caller
    /// then drops what stayed on the foreign exit.
    ///
    /// While there is nowhere to divert to (`ha_exterior` false), the window
    /// does not count: it is re-armed at `agora`.
    pub fn avaliar(&mut self, agora: u64, ha_exterior: bool) -> (fechou: bool)
        ensures
            (final(self).view(), fechou) == avaliado(old(self).view(), agora as nat, ha_exterior),
    {
        if self.fase == Fase::Estabelecida {
            return false;
        }
        if !ha_exterior {
            self.armada_em = agora;
            self.ultima_controle = None;
            return false;
        }
        let referencia = match self.ultima_controle {
            Some(t) => t,
            None => self.armada_em,
        };
        let calou = agora.saturating_sub(referencia) >= SILENCIO;
        let estourou = agora.saturating_sub(self.armada_em) >= TETO;
        if !calou && !estourou {
            return false;
        }
        self.fase = Fase::Estabelecida;
        true
    }

    /// Compares Discord's processes with those of the last pass. Re-arms when
    /// none of the previous ones is left, which tells a real restart from a
    /// renderer born or dead in the middle of use. An empty reading, which
    /// happens under load, is only counted: Discord is taken as closed, and
    /// its processes forgotten, at the `LEITURAS_VAZIAS`-th in a row.
    pub fn observar_discord(&mut self, pids: &[u32], agora: u64) -> (rearmou: bool)
        ensures
            (final(self).view(), rearmou) == observado(old(self).view(), pids@.to_set(), agora as nat),
    {
        broadcast use vstd::std_specs::hash::group_hash_axioms;

        let ghost atuais = pids@.to_set();
        if pids.len() == 0 {
            assert(atuais =~= Set::<u32>::empty());
            if self.vazias < LEITURAS_VAZIAS {
                self.vazias = self.vazias + 1;
            }
            if self.vazias >= LEITURAS_VAZIAS {
                self.pids_discord = HashSet::new();
            }
            return false;
        }
        assert(atuais.contains(pids@[0]));
        let mut disjuntos = true;
        let mut novos: HashSet<u32> = HashSet::new();
        let mut i: usize = 0;
        while i < pids.len()
            invariant
                i <= pids@.len(),
                disjuntos <==> forall|j: int| 0 <= j < i ==> !self.pids_discord@.contains(#[trigger] pids@[j]),
                novos@ == pids@.subrange(0, i as int).to_set(),
            decreases pids@.len() - i,
        {
            let p = pids[i];
            if self.pids_discord.contains(&p) {
                disjuntos = false;
            }
            novos.insert(p);
            assert(pids@.subrange(0, i + 1) =~= pids@.subrange(0, i as int).push(p));
            proof {
                pids@.subrange(0, i as int).lemma_push_to_set_commute(p);
            }
            i = i + 1;
        }
        assert(pids@.subrange(0, pids@.len() as int) =~= pids@);
        let ghost antigos = self.pids_discord@;
        proof {
            assert(atuais.disjoint(antigos) <==> disjuntos) by {
                if disjuntos {
                    assert forall|p: u32| atuais.contains(p) implies !antigos.contains(p) by {
                        let j = choose|j: int| 0 <= j < pids@.len() && pids@[j] == p;
                        assert(!self.pids_discord@.contains(pids@[j]));
                    }
                } else {
                    let j = choose|j: int| 0 <= j < pids@.len() && #[trigger] self.pids_discord@.contains(pids@[j]);
                    assert(atuais.contains(pids@[j]));
                    assert(antigos.contains(pids@[j]));
                }
            }
        }
        self.pids_discord = novos;
        self.vazias = 0;
        if disjuntos {
            self.fase = Fase::Abertura;
            self.armada_em = agora;
            self.ultima_controle = None;
        }
        disjuntos
    }
}

// ---------------------------------------------------------------------------
// Laws
// ---------------------------------------------------------------------------

/// The window closes only once: once established, no later pass closes it
/// again or changes anything, until a restart re-arms it.
pub proof fn lei_fecha_uma_vez(s: SessaoV, agora: nat, ha_exterior: bool)
    requires
        s.fase == Fase::Estabelecida,
    ensures
        avaliado(s, agora, ha_exterior) == (s, false),
{
}

/// A pass that closes the window leaves it established; a pass that does
/// not, leaves the phase as it was.
pub proof fn lei_fechar_estabelece(s: SessaoV, agora: nat, ha_exterior: bool)
    ensures
        avaliado(s, agora, ha_exterior).1 ==> s.fase == Fase::Abertura && avaliado(
            s,
            agora,
            ha_exterior,
        ).0.fase == Fase::Estabelecida,
        !avaliado(s, agora, ha_exterior).1 ==> avaliado(s, agora, ha_exterior).0.fase == s.fase,
        avaliado(s, agora, ha_exterior).0.pids == s.pids,
{
}

/// While there is nowhere to divert to, the window never closes, however
/// long it waits.
pub proof fn lei_sem_exterior_nao_fecha(s: SessaoV, agora: nat)
    ensures
        !avaliado(s, agora, false).1,
        s.fase == Fase::Abertura ==> avaliado(s, agora, false).0.fase == Fase::Abertura,
{
}

/// The ceiling closes an open window even under continuous control traffic.
pub proof fn lei_teto_fecha(s: SessaoV, agora: nat)
    requires
        s.fase == Fase::Abertura,
        decorrido(agora, s.armada_em) >= TETO,
    ensures
        avaliado(s, agora, true).1,
{
}

/// Before the silence and before the ceiling, an open window stays open.
pub proof fn lei_antes_do_silencio_nao_fecha(s: SessaoV, agora: nat)
    requires
        s.fase == Fase::Abertura,
        decorrido(agora, s.armada_em) < TETO,
        decorrido(agora, match s.ultima_controle { Some(t) => t, None => s.armada_em }) < SILENCIO,
    ensures
        avaliado(s, agora, true) == (s, false),
{
}

/// A restart re-arms a whole new window: open, counting from the restart,
/// with no control traffic of the old session.
pub proof fn lei_reinicio_rearma(s: SessaoV, atuais: Set<u32>, agora: nat)
    requires
        reiniciou(s.pids, atuais),
    ensures
        observado(s, atuais, agora) == (SessaoV {
            fase: Fase::Abertura,
            armada_em: agora,
            ultima_controle: None,
            pids: atuais,
            vazias: 0,
        }, true),
{
}

/// With Discord closed, or with one of its previous processes still up, the
/// window is left as it was.
pub proof fn lei_sem_reinicio_nao_rearma(s: SessaoV, atuais: Set<u32>, agora: nat)
    requires
        atuais.is_empty() || !atuais.disjoint(s.pids),
    ensures
        !observado(s, atuais, agora).1,
        observado(s, atuais, agora).0.fase == s.fase,
        observado(s, atuais, agora).0.armada_em == s.armada_em,
        observado(s, atuais, agora).0.ultima_controle == s.ultima_controle,
{
}

/// An empty reading short of the limit forgets nothing: the processes seen
/// before are still the reference, so when they come back it is no restart.
pub proof fn lei_leitura_vazia_isolada(s: SessaoV, atuais: Set<u32>, t1: nat, t2: nat)
    requires
        s.vazias + 1 < LEITURAS_VAZIAS,
        !atuais.disjoint(s.pids),
    ensures
        observado(s, Set::empty(), t1) == (SessaoV { vazias: s.vazias + 1, ..s }, false),
        !observado(observado(s, Set::empty(), t1).0, atuais, t2).1,
{
}

/// `LEITURAS_VAZIAS` empty readings in a row take Discord as closed: the
/// processes seen before are forgotten, and the next one to appear is a
/// restart.
pub proof fn lei_vazias_seguidas_esquecem(s: SessaoV, atuais: Set<u32>, t1: nat, t2: nat, t3: nat, t4: nat)
    requires
        s.vazias == 0,
        !atuais.is_empty(),
    ensures
        ({
            let s1 = observado(s, Set::empty(), t1).0;
            let s2 = observado(s1, Set::empty(), t2).0;
            let s3 = observado(s2, Set::empty(), t3).0;
            &&& s3.pids == Set::<u32>::empty()
            &&& s3.fase == s.fase
            &&& observado(s3, atuais, t4).1
        }),
{
    let s1 = observado(s, Set::empty(), t1).0;
    let s2 = observado(s1, Set::empty(), t2).0;
    let s3 = observado(s2, Set::empty(), t3).0;
    assert(atuais.disjoint(s3.pids));
}

} // verus!
