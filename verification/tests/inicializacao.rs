use fol_discord::interface::inicializacao::{
    caminho_igual, desinstalador_e_argumentos, desinstalador_vizinho, e_absoluto,
    entrada_run_e_do_fol, linha_de_comando_registrada, marcador_da_instalacao,
    pode_ativar_tarefa, remover_run_legado_do_fol, separar_linha_de_comando, tarefa_removivel,
    texto_da_saida,
    uninstaller_pertence_a_instalacao, validar_run_legado, xml_da_tarefa_corresponde,
    xml_escapado, xml_tarefa, ErroInicializacao, CHAVES_DESINSTALAR,
};

#[test]
fn tarefa_de_logon_abre_a_interface_instalada_na_bandeja() {
    let tarefa = xml_tarefa(
        r"C:\Users\Ana\AppData\Local\FOL-discord\fol-discord-janela.exe",
        r"PC-ANA\Ana",
    );
    assert!(tarefa.xml.contains("<LogonTrigger>"));
    assert!(tarefa.xml.contains("<UserId>PC-ANA\\Ana</UserId>"));
    assert!(tarefa.xml.contains("<LogonType>InteractiveToken</LogonType>"));
    assert!(tarefa.xml.contains("<RunLevel>LeastPrivilege</RunLevel>"));
    assert!(tarefa.xml.contains("<AllowStartOnDemand>true</AllowStartOnDemand>"));
    assert!(tarefa
        .xml
        .contains("<MultipleInstancesPolicy>IgnoreNew</MultipleInstancesPolicy>"));
    assert!(tarefa.xml.contains(
        "<Command>C:\\Users\\Ana\\AppData\\Local\\FOL-discord\\fol-discord-janela.exe</Command>"
    ));
    assert!(tarefa.xml.contains("<Arguments>--bandeja</Arguments>"));
}

#[test]
fn nao_confunde_uma_entrada_run_de_terceiro_com_a_do_fol() {
    let servico = r"C:\Users\Ana\AppData\Local\FolDiscord\fol-discord.exe";
    assert!(entrada_run_e_do_fol(
        r#""C:\Users\Ana\AppData\Local\FolDiscord\fol-discord.exe" rodar"#,
        servico,
    ));
    assert!(!entrada_run_e_do_fol(r"C:\Outro\fol-discord.exe rodar", servico));
}

#[test]
fn somente_o_setup_marcado_pode_registrar_o_boot() {
    let exe = r"C:\Users\Ana\AppData\Local\FOL-discord\fol-discord-janela.exe";
    assert_eq!(
        marcador_da_instalacao(exe).as_deref(),
        Some(r"C:\Users\Ana\AppData\Local\FOL-discord\.fol-discord-instalada")
    );
    assert_eq!(pode_ativar_tarefa(exe, false), Err(ErroInicializacao::InterfaceNaoInstalada));
    assert_eq!(pode_ativar_tarefa(exe, true), Ok(()));
    assert_eq!(
        pode_ativar_tarefa("fol-discord-janela.exe", true),
        Err(ErroInicializacao::InterfaceNaoInstalada)
    );
}

#[test]
fn desinstalador_entre_aspas_preserva_argumentos() {
    let (exe, args) = separar_linha_de_comando(
        r#""C:\Users\Ana\AppData\Local\FOL-discord\uninstall.exe" /S"#,
    )
    .unwrap();
    assert_eq!(exe, r"C:\Users\Ana\AppData\Local\FOL-discord\uninstall.exe");
    assert_eq!(args, vec!["/S"]);
}

#[test]
fn xml_escapa_um_caminho_de_usuario_valido() {
    let tarefa = xml_tarefa(r"C:\Users\A&B\fol-discord-janela.exe", r"PC\A&B");
    assert!(tarefa.xml.contains("A&amp;B"));
    assert!(!tarefa.xml.contains("A&B</"));
}

#[test]
fn procura_o_desinstalador_pela_chave_que_o_setup_realmente_grava() {
    assert_eq!(
        CHAVES_DESINSTALAR[0],
        r"Software\Microsoft\Windows\CurrentVersion\Uninstall\FOL-discord"
    );
    assert!(CHAVES_DESINSTALAR
        .contains(&r"Software\Microsoft\Windows\CurrentVersion\Uninstall\br.com.foldiscord.janela"));
}

#[test]
fn sem_registro_usa_o_desinstalador_ao_lado_da_interface() {
    let interface = r"C:\Programas\FOL-discord\fol-discord-janela.exe";
    assert!(
        desinstalador_e_argumentos(interface, None, false).is_err(),
        "sem uninstall.exe ao lado não há desinstalador nenhum para abrir"
    );
    let vizinho = desinstalador_vizinho(interface).unwrap();
    assert_eq!(vizinho, r"C:\Programas\FOL-discord\uninstall.exe");
    let (encontrado, argumentos) = desinstalador_e_argumentos(interface, None, true).unwrap();
    assert_eq!(encontrado, vizinho);
    assert!(argumentos.is_empty());
}

#[test]
fn o_registro_tem_precedencia_sobre_o_vizinho() {
    let interface = r"C:\Programas\FOL-discord\fol-discord-janela.exe";
    let (encontrado, argumentos) = desinstalador_e_argumentos(
        interface,
        Some(r#""C:\Instalado\uninstall.exe" /P"#.to_string()),
        true,
    )
    .unwrap();
    assert_eq!(encontrado, r"C:\Instalado\uninstall.exe");
    assert_eq!(argumentos, vec!["/P"]);
}

#[test]
fn recusa_um_desinstalador_fora_da_pasta_da_interface() {
    let interface = r"C:\Users\Ana\AppData\Local\FOL-discord\fol-discord-janela.exe";
    let dentro = r"C:\Users\Ana\AppData\Local\FOL-discord\uninstall.exe";
    let fora = r"C:\Users\Ana\Downloads\uninstall.exe";

    assert!(uninstaller_pertence_a_instalacao(interface, dentro));
    assert!(!uninstaller_pertence_a_instalacao(interface, fora));
}

#[test]
fn tarefa_com_mesmo_nome_e_outra_acao_nao_e_ativa() {
    let interface = r"C:\Users\Ana\AppData\Local\FOL-discord\fol-discord-janela.exe";
    let tarefa = xml_tarefa(interface, r"PC-ANA\Ana");
    let outra_acao = tarefa
        .xml
        .replace("fol-discord-janela.exe", "programa-de-terceiro.exe");

    assert!(xml_da_tarefa_corresponde(&tarefa.xml, interface));
    assert!(!xml_da_tarefa_corresponde(&outra_acao, interface));
}

#[test]
fn xml_escapa_os_cinco_caracteres() {
    assert_eq!(xml_escapado(r#"a&b<c>d"e'f"#), "a&amp;b&lt;c&gt;d&quot;e&apos;f");
    assert_eq!(xml_escapado(""), "");
}

#[test]
fn linha_de_comando_sem_aspas_e_com_argumentos_entre_aspas() {
    let (exe, args) =
        separar_linha_de_comando(r#"  C:\x\uninstall.exe  /S "/D=C:\Program Files\F" fim  "#)
            .unwrap();
    assert_eq!(exe, r"C:\x\uninstall.exe");
    assert_eq!(args, vec!["/S", r"/D=C:\Program Files\F", "fim"]);
}

#[test]
fn linha_de_comando_com_defeito_diz_qual() {
    assert_eq!(separar_linha_de_comando("   "), Err(ErroInicializacao::LinhaVazia));
    assert_eq!(
        separar_linha_de_comando(r#""C:\x\uninstall.exe /S"#),
        Err(ErroInicializacao::AspasNoCaminho)
    );
    assert_eq!(separar_linha_de_comando(r#""" /S"#), Err(ErroInicializacao::CaminhoVazio));
    assert_eq!(
        separar_linha_de_comando(r#"C:\x\uninstall.exe "/S"#),
        Err(ErroInicializacao::AspasNoArgumento)
    );
    assert_eq!(
        ErroInicializacao::AspasNoArgumento.mensagem(),
        "um argumento do desinstalador tem aspas sem fechamento"
    );
}

#[test]
fn a_primeira_linha_nao_vazia_vence() {
    assert_eq!(
        linha_de_comando_registrada(&[None, Some("  ".to_string()), Some("b".to_string())]),
        Some("b".to_string())
    );
    assert_eq!(
        linha_de_comando_registrada(&[Some("a".to_string()), Some("b".to_string())]),
        Some("a".to_string())
    );
    assert_eq!(linha_de_comando_registrada(&[None, None]), None);
}

#[test]
fn run_legado_so_e_removido_quando_e_nosso() {
    let servico = r"C:\L\FolDiscord\fol-discord.exe";
    let nosso = r#""C:\L\FolDiscord\fol-discord.exe" rodar"#;
    assert_eq!(validar_run_legado(None, servico), Ok(()));
    assert_eq!(validar_run_legado(Some(nosso), servico), Ok(()));
    assert_eq!(
        validar_run_legado(Some("outro.exe"), servico),
        Err(ErroInicializacao::RunDeOutroPrograma)
    );
    assert_eq!(remover_run_legado_do_fol(None, servico), Ok(false));
    assert_eq!(remover_run_legado_do_fol(Some(nosso), servico), Ok(true));
    assert_eq!(
        remover_run_legado_do_fol(Some("outro.exe"), servico),
        Err(ErroInicializacao::RunDeOutroPrograma)
    );
}

#[test]
fn caminhos_iguais_ignoram_caixa_e_barras_finais() {
    assert!(caminho_igual(r"C:\A\b\", r"c:\a\B"));
    assert!(caminho_igual("C:/A//", "c:/a"));
    assert!(!caminho_igual(r"C:\A", r"C:\AB"));
    assert!(e_absoluto(r"C:\x"));
    assert!(e_absoluto(r"\\servidor\x"));
    assert!(!e_absoluto(r"x\y"));
    assert!(!e_absoluto("C:x"));
}

#[test]
fn saida_em_utf16_ou_utf8() {
    assert_eq!(texto_da_saida(&[0xff, 0xfe, 0x4f, 0x00, 0x4b, 0x00]), "OK");
    // Only the bytes at even positions are looked at for a zero.
    assert_eq!(texto_da_saida(&[0x4f, 0x00, 0x4b, 0x00]), "O\0K\0");
    assert_eq!(texto_da_saida(&[0x4f, 0x00, 0x00, 0x00]), "O\0");
    assert_eq!(texto_da_saida("não".as_bytes()), "não");
    assert_eq!(texto_da_saida(&[0x61, 0xff, 0x62]), "a\u{FFFD}b");
}

#[test]
fn so_a_tarefa_desta_janela_e_removida() {
    let interface = r"C:\Users\Ana\AppData\Local\FOL-discord\fol-discord-janela.exe";
    let nossa = xml_tarefa(interface, r"PC-ANA\Ana").xml;
    let alheia = nossa.replace("fol-discord-janela.exe", "outro.exe");
    assert!(tarefa_removivel(Some(&nossa), interface));
    assert!(!tarefa_removivel(Some(&alheia), interface));
    assert!(!tarefa_removivel(None, interface));
}
