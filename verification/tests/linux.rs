use fol_discord::linux::{
    ativar_autostart, ativar_pac, autostart, autostart_ativo, caminho_instalado, cli_registrada,
    desativar_pac, desktop_autostart, desktop_discord, e_gerenciado, escapar_exec, home,
    launcher_discord, marcador_pac, pac_ativo, pasta_dados, registrar_cli, remover_cli,
    validar_autostart_do_fol, Ambiente, RecusaLinux, ASSINATURA,
};

fn ambiente() -> Ambiente {
    Ambiente {
        home: Some("/home/ana".to_string()),
        xdg_state_home: None,
        xdg_data_home: Some(String::new()),
        xdg_config_home: Some("/etc/xdg-ana".to_string()),
        temp_dir: "/tmp".to_string(),
        euid: 1000,
    }
}

#[test]
fn desktop_aponta_para_launcher_gerenciado() {
    let texto = desktop_discord("/home/Ana Teste/fol-discord");
    assert!(texto.contains("Exec=\"/home/Ana Teste/fol-discord\" abrir-discord %U"));
    assert!(texto.contains(ASSINATURA));
    assert!(texto.contains("x-scheme-handler/discord"));
}

#[test]
fn percentual_literal_e_escapado() {
    assert_eq!(escapar_exec("/tmp/100%/app"), "\"/tmp/100%%/app\"");
}

#[test]
fn autostart_xdg_sobe_o_nucleo_sem_terminal() {
    let texto = desktop_autostart("/opt/FOL discord/fol-discord");
    assert!(texto.contains("Exec=\"/opt/FOL discord/fol-discord\" rodar"));
    assert!(texto.contains("Terminal=false"));
    assert!(texto.contains(ASSINATURA));
}

#[test]
fn escapa_aspas_barras_crases_e_cifroes() {
    assert_eq!(escapar_exec("a\"b\\c`d$e"), "\"a\\\"b\\\\c\\`d\\$e\"");
}

#[test]
fn caminhos_seguem_o_xdg() {
    let a = ambiente();
    assert_eq!(home(&a), "/home/ana");
    assert_eq!(pasta_dados(&a), "/home/ana/.local/state/fol-discord");
    assert_eq!(caminho_instalado(&a), "/home/ana/.local/share/fol-discord/fol-discord");
    assert_eq!(marcador_pac(&a), "/etc/xdg-ana/fol-discord/pac-url");
    assert_eq!(
        launcher_discord(&a),
        "/home/ana/.local/share/applications/fol-discord-discord.desktop"
    );
    assert_eq!(autostart(&a), "/etc/xdg-ana/autostart/fol-discord-core.desktop");
}

#[test]
fn sem_home_usa_a_pasta_temporaria_do_usuario() {
    let a = Ambiente {
        home: None,
        xdg_state_home: Some("/var/estado/".to_string()),
        xdg_data_home: None,
        xdg_config_home: None,
        temp_dir: "/tmp".to_string(),
        euid: 1000,
    };
    assert_eq!(home(&a), "/tmp/fol-discord-1000");
    assert_eq!(pasta_dados(&a), "/var/estado/fol-discord");
    assert_eq!(
        caminho_instalado(&a),
        "/tmp/fol-discord-1000/.local/share/fol-discord/fol-discord"
    );
}

#[test]
fn so_o_que_tem_a_assinatura_e_gerenciado() {
    let nosso = desktop_autostart("/opt/fol-discord");
    assert!(e_gerenciado(Some(&nosso)));
    assert!(e_gerenciado(Some("[Desktop Entry]\r\nX-FOL-Discord-Managed=true\r\n")));
    assert!(!e_gerenciado(Some("[Desktop Entry]\nX-FOL-Discord-Managed=true-ish\n")));
    assert!(!e_gerenciado(None));
    assert!(autostart_ativo(Some(&nosso)));
    assert!(!autostart_ativo(Some("[Desktop Entry]\n")));
}

#[test]
fn recusa_sobrescrever_arquivo_alheio() {
    let a = ambiente();
    match ativar_autostart(&a, "/opt/fol-discord", true, Some("[Desktop Entry]\nExec=outro\n")) {
        Err(RecusaLinux::NaoGerenciado(caminho)) => assert_eq!(caminho, autostart(&a)),
        outro => panic!("esperava recusa, veio {outro:?}"),
    }
    assert!(validar_autostart_do_fol(&a, true, Some("alheio")).is_err());
    assert!(validar_autostart_do_fol(&a, false, None).is_ok());
    let nosso = desktop_autostart("/opt/fol-discord");
    assert_eq!(
        ativar_autostart(&a, "/opt/fol-discord", true, Some(&nosso)).unwrap(),
        nosso
    );
}

#[test]
fn pac_liga_e_desliga_pelo_launcher_gerenciado() {
    let a = ambiente();
    let arquivos = ativar_pac(&a, "http://127.0.0.1:9251/proxy.pac", "/opt/fol-discord", false, None)
        .unwrap();
    assert_eq!(arquivos.marcador, "http://127.0.0.1:9251/proxy.pac\n");
    assert!(pac_ativo(
        "http://127.0.0.1:9251/proxy.pac",
        Some(&arquivos.launcher),
        Some(&arquivos.marcador)
    ));
    assert!(!pac_ativo("http://127.0.0.1:9251/proxy.pac", Some(&arquivos.launcher), None));
    assert!(!pac_ativo("http://127.0.0.1:9251/proxy.pac", None, Some(&arquivos.marcador)));
    assert_eq!(desativar_pac(&a, true, Some(&arquivos.launcher)).unwrap(), true);
    assert_eq!(desativar_pac(&a, false, None).unwrap(), false);
    assert!(desativar_pac(&a, true, Some("alheio")).is_err());
}

#[test]
fn atalho_da_linha_de_comando() {
    let a = ambiente();
    assert_eq!(registrar_cli(&a, "/opt/fol", None, false).unwrap(), true);
    assert_eq!(registrar_cli(&a, "/opt/fol", Some("/opt/fol"), true).unwrap(), false);
    assert!(matches!(
        registrar_cli(&a, "/opt/fol", Some("/usr/bin/outro"), true),
        Err(RecusaLinux::AtalhoDeOutroPrograma(_))
    ));
    assert!(matches!(
        registrar_cli(&a, "/opt/fol", None, true),
        Err(RecusaLinux::AtalhoOcupado(_))
    ));
    assert_eq!(remover_cli(&a, "/opt/fol", Some("/opt/fol")).unwrap(), true);
    assert_eq!(remover_cli(&a, "/opt/fol", None).unwrap(), false);
    assert!(remover_cli(&a, "/opt/fol", Some("/x")).is_err());
    assert!(cli_registrada("/opt/fol", Some("/opt/fol")));
    assert!(!cli_registrada("/opt/fol", None));
}

#[test]
fn o_que_o_modulo_escreve_pode_ser_removido_depois() {
    let a = ambiente();
    for servico in ["/home/ana/.local/share/fol-discord/fol-discord", "/tmp/x\ny/fol", ""] {
        let launcher = desktop_discord(servico);
        let autostart_txt = desktop_autostart(servico);
        assert!(e_gerenciado(Some(&launcher)));
        assert!(e_gerenciado(Some(&autostart_txt)));
        assert!(matches!(desativar_pac(&a, true, Some(&launcher)), Ok(true)));
        assert!(validar_autostart_do_fol(&a, true, Some(&autostart_txt)).is_ok());
    }
}
