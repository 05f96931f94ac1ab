use fol_discord::caminhos::{juntar_windows, pasta_de};
use fol_discord::windows::{
    adicionar_ao_path, ativar_autostart, ativar_pac, autostart_ativo, caminho_instalado,
    cli_registrada, comandos_de_remocao_autostart, desativar_autostart, desativar_pac,
    entrada_run_e_do_fol, esta_no_path, pac_ativo, pasta_dados, registrar_cli, remover_cli,
    remover_do_path, resultado_remocao_da_tarefa, texto_para_utf16, utf16_para_texto,
    validar_autostart_do_fol, ConfigInternet, RecusaWindows,
};

#[test]
fn reconhece_entrada_ja_presente() {
    let p = r"C:\Windows;C:\Users\x\AppData\Local\FolDiscord;C:\outro";
    assert!(esta_no_path(p, r"C:\Users\x\AppData\Local\FolDiscord"));
    assert!(esta_no_path(p, r"C:\Users\x\AppData\Local\FolDiscord\"));
    assert!(!esta_no_path(p, r"C:\Users\x\AppData\Local\Outro"));
}

#[test]
fn ida_e_volta_preserva_o_texto() {
    let s = r"C:\Windows;%USERPROFILE%\bin";
    let bytes = texto_para_utf16(s);
    assert_eq!(utf16_para_texto(&bytes), s);
}

#[test]
fn remover_autostart_remove_task_e_run_legado_do_fol() {
    let comandos = comandos_de_remocao_autostart();
    assert!(comandos
        .iter()
        .any(|comando| comando.contains("FolDiscord.Bandeja")));
}

#[test]
fn bytes_do_registro_sao_utf16_little_endian_com_nulo() {
    assert_eq!(texto_para_utf16("A\u{e9}"), vec![0x41, 0x00, 0xe9, 0x00, 0x00, 0x00]);
    assert_eq!(texto_para_utf16("\u{1F600}"), vec![0x3d, 0xd8, 0x00, 0xde, 0x00, 0x00]);
    // The first NUL ends the text; an odd last byte is ignored.
    assert_eq!(utf16_para_texto(&[0x41, 0x00, 0x00, 0x00, 0x42, 0x00]), "A");
    assert_eq!(utf16_para_texto(&[0x41, 0x00, 0x42]), "A");
    // A lone surrogate becomes U+FFFD.
    assert_eq!(utf16_para_texto(&[0x00, 0xd8, 0x41, 0x00]), "\u{FFFD}A");
}

#[test]
fn comandos_de_remocao_exatos() {
    let comandos = comandos_de_remocao_autostart();
    assert_eq!(
        comandos,
        vec![
            "schtasks /delete /tn FolDiscord.Bandeja /f".to_string(),
            r"HKCU\Software\Microsoft\Windows\CurrentVersion\Run\FolDiscord".to_string(),
        ]
    );
}

#[test]
fn adicionar_ao_path_poe_ponto_e_virgula_so_quando_falta() {
    assert_eq!(adicionar_ao_path("", r"C:\F"), Some(r"C:\F".to_string()));
    assert_eq!(adicionar_ao_path(r"C:\A", r"C:\F"), Some(r"C:\A;C:\F".to_string()));
    assert_eq!(adicionar_ao_path(r"C:\A;", r"C:\F"), Some(r"C:\A;C:\F".to_string()));
    assert_eq!(adicionar_ao_path(r"C:\A; c:\f\ ", r"C:\F"), None);
}

#[test]
fn remover_do_path_tira_so_a_pasta_do_servico() {
    assert_eq!(
        remover_do_path(r"C:\A;C:\F;%USERPROFILE%\bin", r"C:\F"),
        Some(r"C:\A;%USERPROFILE%\bin".to_string())
    );
    assert_eq!(remover_do_path(r"C:\A; c:\f ;C:\B", r"C:\F\"), Some(r"C:\A;C:\B".to_string()));
    assert_eq!(remover_do_path(r"C:\A;C:\B", r"C:\F"), None);
    assert_eq!(remover_do_path(r"C:\F", r"C:\F"), Some(String::new()));
}

#[test]
fn adicionar_e_remover_devolvem_o_path() {
    let antes = r"C:\Windows;%USERPROFILE%\bin";
    let com = adicionar_ao_path(antes, r"C:\Users\x\AppData\Local\FolDiscord").unwrap();
    assert_eq!(
        remover_do_path(&com, r"C:\Users\x\AppData\Local\FolDiscord"),
        Some(antes.to_string())
    );
}

#[test]
fn cli_usa_a_pasta_do_servico() {
    let servico = r"C:\Users\x\AppData\Local\FolDiscord\fol-discord.exe";
    assert_eq!(
        registrar_cli(servico, r"C:\Windows"),
        Some(r"C:\Windows;C:\Users\x\AppData\Local\FolDiscord".to_string())
    );
    assert!(cli_registrada(servico, Some(r"C:\Windows;C:\Users\x\AppData\Local\FolDiscord")));
    assert!(!cli_registrada(servico, None));
    assert_eq!(
        remover_cli(servico, r"C:\Windows;C:\Users\x\AppData\Local\FolDiscord"),
        Some(r"C:\Windows".to_string())
    );
}

#[test]
fn pastas_do_windows() {
    assert_eq!(pasta_de(r"C:\a\b.exe"), Some(r"C:\a".to_string()));
    assert_eq!(pasta_de(r"C:\b.exe"), Some(r"C:\".to_string()));
    assert_eq!(pasta_de(r"C:\a\\b\"), Some(r"C:\a".to_string()));
    assert_eq!(pasta_de("b.exe"), Some(String::new()));
    assert_eq!(pasta_de(r"C:\"), None);
    assert_eq!(pasta_de(""), None);
    assert_eq!(juntar_windows(r"C:\a", "x"), r"C:\a\x");
    assert_eq!(juntar_windows(r"C:\", "x"), r"C:\x");
    assert_eq!(juntar_windows("C:", "x"), "C:x");
    assert_eq!(pasta_dados(Some(r"C:\Users\x\AppData\Local")), r"C:\Users\x\AppData\Local\FolDiscord");
    assert_eq!(pasta_dados(None), r".\FolDiscord");
    assert_eq!(caminho_instalado(r"C:\L\FolDiscord"), r"C:\L\FolDiscord\fol-discord.exe");
}

#[test]
fn pac_guarda_e_devolve_o_proxy_anterior() {
    let url = "http://127.0.0.1:9251/proxy.pac";
    let antes = ConfigInternet { url: Some("http://empresa/proxy.pac".to_string()), backup: None };
    let ligado = ativar_pac(&antes, url);
    assert_eq!(ligado.url.as_deref(), Some(url));
    assert_eq!(ligado.backup.as_deref(), Some("http://empresa/proxy.pac"));
    assert!(pac_ativo(ligado.url.as_deref(), url));
    let desligado = desativar_pac(&ligado);
    assert_eq!(desligado.url.as_deref(), Some("http://empresa/proxy.pac"));
    assert_eq!(desligado.backup, None);

    let vazio = ConfigInternet { url: None, backup: None };
    let ligado = ativar_pac(&vazio, url);
    assert_eq!(ligado.backup, None);
    let desligado = desativar_pac(&ligado);
    assert_eq!(desligado.url, None);
    assert!(!pac_ativo(None, url));
}

#[test]
fn pac_nao_sobrescreve_um_backup_existente() {
    let url = "http://127.0.0.1:9251/proxy.pac";
    let c = ConfigInternet {
        url: Some("http://outro".to_string()),
        backup: Some("http://primeiro".to_string()),
    };
    let ligado = ativar_pac(&c, url);
    assert_eq!(ligado.backup.as_deref(), Some("http://primeiro"));
}

#[test]
fn autostart_reconhece_so_a_propria_entrada() {
    let servico = r"C:\Users\Ana\AppData\Local\FolDiscord\fol-discord.exe";
    let valor = ativar_autostart(servico);
    assert_eq!(valor, format!("\"{servico}\" rodar"));
    assert!(entrada_run_e_do_fol(&valor, servico));
    assert!(entrada_run_e_do_fol(&format!("  {}  ", valor.to_uppercase()), servico));
    assert!(!entrada_run_e_do_fol(r"C:\Outro\fol-discord.exe rodar", servico));
    assert_eq!(validar_autostart_do_fol(None, servico), Ok(()));
    assert_eq!(validar_autostart_do_fol(Some(&valor), servico), Ok(()));
    assert_eq!(
        validar_autostart_do_fol(Some("outro.exe"), servico),
        Err(RecusaWindows::AutostartDeOutroPrograma)
    );
    assert_eq!(desativar_autostart(None, servico), Ok(false));
    assert_eq!(desativar_autostart(Some(&valor), servico), Ok(true));
    assert_eq!(
        desativar_autostart(Some("outro.exe"), servico),
        Err(RecusaWindows::AutostartDeOutroPrograma)
    );
    assert!(autostart_ativo(Some("x")));
    assert!(!autostart_ativo(None));
}

#[test]
fn tarefa_que_continua_registrada_e_erro() {
    assert_eq!(resultado_remocao_da_tarefa(true, true), Ok(()));
    assert_eq!(resultado_remocao_da_tarefa(false, false), Ok(()));
    assert_eq!(resultado_remocao_da_tarefa(false, true), Err(RecusaWindows::TarefaPermanece));
}
