use fol_discord::caminhos::{juntar, Sistema};
use fol_discord::cli::{
    caminho_log, caminho_marcador, caminho_ultima_validacao, comando, conteudo_checagem,
    extras_abrir_discord, manter_arquivos, opcoes_instalar, outras_instancias, pasta_dados,
    marcador_pronto, passo_prontidao, sim_nao, url_pac, Espera, OpcoesInstalar,
    INTERVALO_PRONTIDAO_S, TENTATIVAS_PRONTIDAO,
};
use fol_discord::linux::Ambiente;
use fol_discord::processos::EntradaProcesso;

#[test]
fn setup_da_interface_instala_o_servico_sem_run_legado() {
    assert_eq!(
        opcoes_instalar(&[
            "instalar".into(),
            "--sem-reiniciar".into(),
            "--sem-autostart".into(),
        ]),
        OpcoesInstalar {
            reiniciar_discord: false,
            criar_run_legado: false,
        },
    );
}

#[test]
fn cli_sem_novas_opcoes_mantem_o_autostart_legado() {
    assert_eq!(
        opcoes_instalar(&["instalar".into()]),
        OpcoesInstalar {
            reiniciar_discord: true,
            criar_run_legado: true,
        },
    );
}

#[test]
fn desinstalar_com_manter_arquivos_nao_remove_a_pasta() {
    assert!(manter_arquivos(&[
        "desinstalar".into(),
        "--manter-arquivos".into()
    ]));
    assert!(!manter_arquivos(&["desinstalar".into()]));
}

#[test]
fn a_janela_e_o_servico_apontam_para_o_mesmo_arquivo_de_checagem() {
    let a = Ambiente {
        home: Some("/home/ana".to_string()),
        xdg_state_home: None,
        xdg_data_home: None,
        xdg_config_home: None,
        temp_dir: "/tmp".to_string(),
        euid: 1000,
    };
    assert_eq!(
        caminho_ultima_validacao(&pasta_dados(&a), Sistema::Unix),
        juntar(&pasta_dados(&a), "ultima-validacao-ms"),
    );
    assert_eq!(
        caminho_ultima_validacao(&pasta_dados(&a), Sistema::Unix),
        "/home/ana/.local/state/fol-discord/ultima-validacao-ms"
    );
}

#[test]
fn arquivos_do_servico_ficam_na_pasta_de_dados() {
    assert_eq!(caminho_log("/d", Sistema::Unix), "/d/fol.log");
    assert_eq!(caminho_marcador("/d/", Sistema::Unix), "/d/pronto");
}

#[test]
fn o_carimbo_da_checagem_e_milissegundos_com_quebra_de_linha() {
    assert_eq!(conteudo_checagem(1_725_000_123_456), "1725000123456\n");
    assert_eq!(conteudo_checagem(0), "0\n");
}

#[test]
fn a_manutencao_carimba_a_hora_que_a_janela_le() {
    // The same format the window's bridge reads: epoch milliseconds as
    // text, with the final line break.
    let conteudo = conteudo_checagem(1_725_000_123_456);
    assert_eq!(conteudo, "1725000123456\n");
    assert_eq!(conteudo.trim().parse::<u64>().unwrap(), 1_725_000_123_456);
}

#[test]
fn url_do_pac_aponta_para_a_porta_do_pac() {
    assert_eq!(url_pac(), "http://127.0.0.1:9251/proxy.pac");
}

#[test]
fn o_comando_e_o_primeiro_argumento_que_nao_e_opcao() {
    assert_eq!(comando(&["--tudo-discord".into(), "rodar".into()]), "rodar");
    assert_eq!(comando(&["--sem-reiniciar".into()]), "ajuda");
    assert_eq!(comando(&[]), "ajuda");
}

#[test]
fn abrir_discord_repassa_o_que_vem_depois() {
    let args: Vec<String> = vec!["abrir-discord".into(), "discord://x".into(), "--y".into()];
    assert_eq!(extras_abrir_discord(&args), vec!["discord://x".to_string(), "--y".to_string()]);
    assert!(extras_abrir_discord(&["rodar".into()]).is_empty());
}

#[test]
fn sim_ou_nao() {
    assert_eq!(sim_nao(true), "sim");
    assert_eq!(sim_nao(false), "não");
}

#[test]
fn so_as_copias_antigas_sao_encerradas() {
    let nome = |s: &str| s.encode_utf16().collect::<Vec<u16>>();
    let lista = vec![
        EntradaProcesso { nome: nome("fol-discord.exe"), pid: 10, pai: 1 },
        EntradaProcesso { nome: nome("fol-discord.exe"), pid: 20, pai: 1 },
        EntradaProcesso { nome: nome("discord.exe"), pid: 30, pai: 1 },
    ];
    assert_eq!(outras_instancias(&lista, "fol-discord.exe", 20), vec![10]);
}

#[test]
fn no_windows_os_arquivos_levam_barra_invertida() {
    let pasta = r"C:\Users\ana\AppData\Local\FolDiscord";
    assert_eq!(
        caminho_log(pasta, Sistema::Windows),
        r"C:\Users\ana\AppData\Local\FolDiscord\fol.log"
    );
    assert_eq!(
        caminho_marcador(pasta, Sistema::Windows),
        r"C:\Users\ana\AppData\Local\FolDiscord\pronto"
    );
    assert_eq!(
        caminho_ultima_validacao(pasta, Sistema::Windows),
        r"C:\Users\ana\AppData\Local\FolDiscord\ultima-validacao-ms"
    );
    assert_eq!(caminho_log(".", Sistema::Windows), r".\fol.log");
}

#[test]
fn a_espera_da_instalacao() {
    assert_eq!(passo_prontidao(0, true, true), Espera::Pronta);
    assert_eq!(passo_prontidao(14, true, true), Espera::Pronta);
    assert_eq!(passo_prontidao(0, true, false), Espera::Continuar);
    assert_eq!(passo_prontidao(0, false, true), Espera::Continuar);
    assert_eq!(passo_prontidao(13, false, false), Espera::Continuar);
    assert_eq!(passo_prontidao(14, false, false), Espera::Desistir);
    assert_eq!(passo_prontidao(14, true, false), Espera::Desistir);
    assert_eq!(TENTATIVAS_PRONTIDAO, 15);
    assert_eq!(INTERVALO_PRONTIDAO_S, 4);
}

#[test]
fn a_espera_faz_quinze_checagens_no_maximo() {
    let mut tentativa: u32 = 0;
    let mut checagens = 0;
    loop {
        checagens += 1;
        match passo_prontidao(tentativa, false, false) {
            Espera::Continuar => tentativa += 1,
            Espera::Pronta => panic!("nada estava pronto"),
            Espera::Desistir => break,
        }
    }
    assert_eq!(checagens, 15);
}

#[test]
fn o_marcador_acompanha_a_piscina() {
    assert!(!marcador_pronto(0));
    assert!(marcador_pronto(1));
    assert!(marcador_pronto(7));
}
