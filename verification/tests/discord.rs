use fol_discord::discord::{esta_rodando, pids, principal, principal_entre, Identidade};
use fol_discord::processos::{EntradaProcesso, Processo};

fn p(pid: u32, pai: u32) -> Processo {
    Processo { pid, pai }
}

fn arvore_comum() -> Vec<Processo> {
    vec![
        p(4000, 3990),
        p(4100, 4000),
        p(4200, 4000),
        p(4300, 4000),
        p(4400, 4000),
        p(4500, 4000),
        p(4600, 4000),
    ]
}

#[test]
fn o_principal_e_quem_nao_tem_pai_discord() {
    let principal = principal_entre(&arvore_comum(), |pid| Some(u64::from(pid) * 10));
    assert_eq!(
        principal,
        Some(Identidade {
            pid: 4000,
            criado_em: 40_000
        })
    );
}

#[test]
fn filho_novo_nao_muda_o_principal() {
    let mut arvore = arvore_comum();
    let antes = principal_entre(&arvore, |_| Some(1));
    arvore.retain(|p| p.pid != 4300);
    arvore.push(p(4700, 4000));
    assert_eq!(principal_entre(&arvore, |_| Some(1)), antes);
}

#[test]
fn sem_discord_nao_ha_principal() {
    assert_eq!(principal_entre(&[], |_| Some(1)), None);
}

#[test]
fn sem_hora_de_criacao_o_pid_ainda_identifica() {
    let principal = principal_entre(&arvore_comum(), |_| None);
    assert_eq!(principal.map(|i| i.pid), Some(4000));
}

#[test]
fn pid_do_lancador_reaproveitado_por_um_filho_nao_esconde_o_principal() {
    let arvore = vec![p(4000, 3990), p(3990, 4000), p(4200, 4000), p(4300, 4000)];
    let hora = |pid: u32| {
        Some(if pid == 4000 {
            100
        } else {
            105 + u64::from(pid)
        })
    };
    assert_eq!(
        principal_entre(&arvore, hora),
        Some(Identidade {
            pid: 4000,
            criado_em: 100
        })
    );

    let sem_hora = principal_entre(&arvore, |_| None);
    assert!(sem_hora.is_some(), "Discord de pé nunca vira None");
    assert_eq!(principal_entre(&arvore, |_| None), sem_hora);
}

#[test]
fn raiz_sem_hora_nao_passa_na_frente_da_raiz_com_hora() {
    let arvore = vec![p(4000, 1), p(9000, 2)];
    let hora = |pid: u32| (pid == 4000).then_some(500);
    assert_eq!(principal_entre(&arvore, hora).map(|i| i.pid), Some(4000));
}

#[test]
fn com_o_principal_morto_os_filhos_ainda_dao_uma_identidade_estavel() {
    let orfaos = vec![p(4100, 4000), p(4200, 4000), p(4300, 4000)];
    let hora = |pid: u32| Some(u64::from(pid));
    assert_eq!(principal_entre(&orfaos, hora).map(|i| i.pid), Some(4100));
    assert_eq!(principal_entre(&orfaos, hora).map(|i| i.pid), Some(4100));
}

fn entrada(nome: &str, pid: u32, pai: u32) -> EntradaProcesso {
    let mut buffer: Vec<u16> = nome.encode_utf16().collect();
    buffer.resize(260, 0);
    EntradaProcesso { nome: buffer, pid, pai }
}

#[test]
fn pids_vem_em_ordem_e_sem_repeticao() {
    let lista = vec![
        entrada("Discord.exe", 4300, 4000),
        entrada("notepad.exe", 10, 1),
        entrada("DISCORD.EXE", 4000, 3990),
        entrada("discord.exe", 4100, 4000),
    ];
    assert_eq!(pids(&lista, &["Discord.exe"]), vec![4000, 4100, 4300]);
    assert_eq!(pids(&lista, &["Discord.exe", "discord.exe"]), vec![4000, 4100, 4300]);
    assert!(esta_rodando(&lista, &["Discord.exe"]));
    assert!(!esta_rodando(&lista, &["Slack.exe"]));
    assert!(pids(&[], &["Discord.exe"]).is_empty());
}

#[test]
fn principal_da_maquina_vem_da_lista_de_processos() {
    let lista = vec![
        entrada("Discord.exe", 4100, 4000),
        entrada("explorer.exe", 3000, 1),
        entrada("Discord.exe", 4000, 3000),
    ];
    let id = principal(&lista, &["Discord.exe"], |pid| Some(u64::from(pid)));
    assert_eq!(id, Some(Identidade { pid: 4000, criado_em: 4000 }));
    assert_eq!(principal(&lista, &["Slack.exe"], |_| Some(1)), None);
}
