use fol_discord::cli::{conteudo_checagem, linha_validados, opcoes_instalar, OpcoesInstalar};
use fol_discord::pool::Upstream;
use fol_discord::socks::linha_rota;
use fol_discord::interface::servico::{
    argumentos_instalar, atualizacao_da_release, dados_do_log, dica, discord_reiniciado,
    interpretar_conexoes, ler_ultima_validacao_em, pac_ativo, partes_da_versao, status,
    verificacao_do_status, verificacao_iniciando, versao_mais_nova, AssetGithub, Atualizacao,
    Estado, ReleaseGithub,
};

fn asset(name: &str, url: &str) -> AssetGithub {
    AssetGithub { name: name.to_string(), browser_download_url: url.to_string() }
}

fn release(tag: &str, prerelease: bool, assets: Vec<AssetGithub>) -> ReleaseGithub {
    ReleaseGithub { tag_name: tag.to_string(), draft: false, prerelease, assets }
}

#[test]
fn extrai_somente_as_rotas_reais_do_log() {
    let conexoes = interpretar_conexoes(
        "reabastecendo a piscina\n\
exterior  gateway.discord.gg:443\n\
direto    cdn.discordapp.com:443\n\
conexão encerrada: early eof\n",
        1_700_000_000_000,
    );

    assert_eq!(conexoes.len(), 2);
    assert_eq!(conexoes[0].host, "cdn.discordapp.com");
    assert_eq!(conexoes[0].rota, "direto");
    assert_eq!(conexoes[1].host, "gateway.discord.gg");
    assert_eq!(conexoes[1].rota, "exterior");
}

#[test]
fn mostra_apenas_release_estavel_mais_nova_com_o_setup_correto() {
    let r = release(
        "v0.2.5",
        false,
        vec![
            asset(
                "FOL-discord_0.2.5_x64-setup.exe",
                "https://github.com/schacal/FOL-discord/releases/download/v0.2.5/FOL-discord_0.2.5_x64-setup.exe",
            ),
            asset(
                "fol-discord.exe",
                "https://github.com/schacal/FOL-discord/releases/download/v0.2.5/fol-discord.exe",
            ),
        ],
    );

    let atualizacao = atualizacao_da_release(&r, "0.2.4")
        .expect("a release estável com setup deve aparecer");

    assert_eq!(atualizacao.versao, "0.2.5");
    assert_eq!(
        atualizacao.url,
        "https://github.com/schacal/FOL-discord/releases/download/v0.2.5/FOL-discord_0.2.5_x64-setup.exe"
    );
}

#[test]
fn aceita_a_copia_de_nome_estavel_quando_o_setup_com_versao_nao_foi_publicado() {
    let r = release(
        "v0.2.5",
        false,
        vec![asset(
            "FOL-discord-setup.exe",
            "https://github.com/schacal/FOL-discord/releases/download/v0.2.5/FOL-discord-setup.exe",
        )],
    );

    let atualizacao = atualizacao_da_release(&r, "0.2.4")
        .expect("a cópia de nome estável deve bastar para avisar");

    assert_eq!(atualizacao.versao, "0.2.5");
    assert_eq!(
        atualizacao.url,
        "https://github.com/schacal/FOL-discord/releases/download/v0.2.5/FOL-discord-setup.exe"
    );
}

#[test]
fn prefere_o_setup_com_versao_e_recusa_asset_fora_da_release() {
    let com_os_dois = release(
        "v0.2.6",
        false,
        vec![
            asset(
                "FOL-discord-setup.exe",
                "https://github.com/schacal/FOL-discord/releases/download/v0.2.6/FOL-discord-setup.exe",
            ),
            asset(
                "FOL-discord_0.2.6_x64-setup.exe",
                "https://github.com/schacal/FOL-discord/releases/download/v0.2.6/FOL-discord_0.2.6_x64-setup.exe",
            ),
        ],
    );
    let fora_da_release = release(
        "v0.2.6",
        false,
        vec![asset("FOL-discord-setup.exe", "https://example.invalid/FOL-discord-setup.exe")],
    );

    let atualizacao = atualizacao_da_release(&com_os_dois, "0.2.5").unwrap();
    assert_eq!(
        atualizacao.url,
        "https://github.com/schacal/FOL-discord/releases/download/v0.2.6/FOL-discord_0.2.6_x64-setup.exe"
    );
    assert!(atualizacao_da_release(&fora_da_release, "0.2.5").is_none());
}

#[test]
fn nao_mostra_release_sem_setup_ou_que_nao_e_mais_nova() {
    let sem_setup = release(
        "v0.2.5",
        false,
        vec![asset("fol-discord.exe", "https://example.invalid/fol-discord.exe")],
    );
    let pre_lancamento = release(
        "v0.3.0-rc.1",
        true,
        vec![asset(
            "FOL-discord_0.3.0-rc.1_x64-setup.exe",
            "https://example.invalid/FOL-discord_0.3.0-rc.1_x64-setup.exe",
        )],
    );

    assert!(atualizacao_da_release(&sem_setup, "0.2.4").is_none());
    assert!(atualizacao_da_release(&pre_lancamento, "0.2.4").is_none());
}

#[test]
fn ultima_validacao_persistida_sobrevive_a_leitura_de_status() {
    let conteudo = conteudo_checagem(1_725_000_123_456);
    assert_eq!(ler_ultima_validacao_em(&conteudo), Some(1_725_000_123_456));
    assert_eq!(conteudo, "1725000123456\n");
}

#[test]
fn release_igual_ou_mais_velha_ou_rascunho_nao_aparece() {
    let url = "https://github.com/schacal/FOL-discord/releases/download/v0.2.5/FOL-discord-setup.exe";
    let igual = release("v0.2.5", false, vec![asset("FOL-discord-setup.exe", url)]);
    assert!(atualizacao_da_release(&igual, "0.2.5").is_none());
    assert!(atualizacao_da_release(&igual, "0.3").is_none());
    let mut rascunho = release("v0.2.5", false, vec![asset("FOL-discord-setup.exe", url)]);
    rascunho.draft = true;
    assert!(atualizacao_da_release(&rascunho, "0.2.4").is_none());
}

#[test]
fn versoes_comparadas_numero_a_numero() {
    assert_eq!(partes_da_versao(" v1.2.30 "), Some(vec![1, 2, 30]));
    assert_eq!(partes_da_versao("1.x"), None);
    assert_eq!(partes_da_versao("1.2-rc"), None);
    assert_eq!(partes_da_versao("v"), None);
    assert_eq!(partes_da_versao(""), None);
    assert!(versao_mais_nova("0.2.10", "0.2.9"));
    assert!(versao_mais_nova("1.0.1", "1.0"));
    assert!(!versao_mais_nova("1.0.0", "1"));
    assert!(!versao_mais_nova("0.2.4", "0.2.5"));
    assert!(!versao_mais_nova("0.3.0-rc.1", "0.2.4"));
}

#[test]
fn a_piscina_vem_da_ultima_linha_que_fala_dela() {
    let log = "3 proxies estrangeiros validados\n\
1.2.3.4:1080 (Frankfurt) 120ms\n\
0 proxies estrangeiros validados\n\
5.6.7.8:1080 (Paris) 80 ms\n\
linha qualquer\n";
    let (quantidade, proxy) = dados_do_log(log);
    assert_eq!(quantidade, 3);
    let proxy = proxy.unwrap();
    assert_eq!(proxy.endereco, "5.6.7.8:1080");
    assert_eq!(proxy.regiao, "Paris");
    assert_eq!(proxy.latencia_ms, 80);
    assert_eq!(proxy.pais, "");
    assert_eq!(dados_do_log(""), (0, None));
}

#[test]
fn estado_do_servico_na_ordem_certa() {
    let log = "2 proxies estrangeiros validados\n1.1.1.1:1 (Tokyo) 5ms\n";
    let s = status("0.2.7", true, true, true, true, Some(log), true, Some(" 17\n"), None, None);
    assert_eq!(s.estado, Estado::Operacional);
    assert_eq!(s.estado.texto(), "operacional");
    assert_eq!(s.proxies_saudaveis, 2);
    assert_eq!(s.ultima_validacao_utc, Some(17));
    let v = verificacao_do_status(&s);
    assert!(v.ok);
    assert_eq!(v.regiao_detectada.as_deref(), Some("Tokyo"));
    assert_eq!(v.mensagem, "O serviço e os proxies estão prontos.");

    let s = status("0.2.7", true, false, false, true, None, true, None, None, None);
    assert_eq!(s.estado, Estado::Parado);
    assert_eq!(s.proxies_saudaveis, 1);
    assert_eq!(s.ultima_validacao_utc, None);
    assert_eq!(verificacao_do_status(&s).mensagem, "O serviço não está respondendo.");

    let s = status("0.2.7", true, true, false, false, None, false, Some("x"), None, None);
    assert_eq!(s.estado, Estado::Pausado);
    assert_eq!(s.ultima_validacao_utc, None);
    assert!(!verificacao_do_status(&s).ok);

    let s = status("0.2.7", true, true, false, true, None, false, None, None, Some("e".into()));
    assert_eq!(s.estado, Estado::SemProxies);
    assert_eq!(s.proxies_saudaveis, 0);
    assert_eq!(s.erro_inicializacao.as_deref(), Some("e"));
    assert_eq!(s.estado.texto(), "sem_proxies");

    let s = status("0.2.7", false, true, false, true, None, true, None,
        Some(Atualizacao { versao: "0.3".into(), url: "u".into() }), None);
    assert_eq!(s.estado, Estado::Parado);
    assert_eq!(s.atualizacao.as_ref().map(|a| a.versao.as_str()), Some("0.3"));

    let v = verificacao_iniciando();
    assert!(!v.ok);
    assert_eq!(v.proxies_saudaveis, 0);
}

#[test]
fn dica_da_bandeja() {
    assert_eq!(dica("operacional"), "FOL-discord — funcionando");
    assert_eq!(dica("pausado"), "FOL-discord — pausado");
    assert_eq!(dica("sem_proxies"), "FOL-discord — procurando saída");
    assert_eq!(dica("inicializando"), "FOL-discord — preparando");
    assert_eq!(dica("qualquer"), "FOL-discord — parado");
}

#[test]
fn a_janela_pede_ao_servico_o_que_ele_entende() {
    for (reiniciar, criar) in [(true, true), (true, false), (false, true), (false, false)] {
        let args = argumentos_instalar(reiniciar, criar);
        assert_eq!(args[0], "instalar");
        assert_eq!(
            opcoes_instalar(&args),
            OpcoesInstalar { reiniciar_discord: reiniciar, criar_run_legado: criar }
        );
    }
}

#[test]
fn pac_da_janela_ignora_caixa() {
    assert!(pac_ativo(Some("HTTP://127.0.0.1:9251/PROXY.PAC"), "http://127.0.0.1:9251/proxy.pac"));
    assert!(!pac_ativo(None, "http://127.0.0.1:9251/proxy.pac"));
    assert!(!pac_ativo(Some("http://outro"), "http://127.0.0.1:9251/proxy.pac"));
}

#[test]
fn conexoes_sao_no_maximo_vinte_e_as_mais_novas() {
    let mut log = String::new();
    for i in 0..25 {
        log.push_str(&format!("direto    h{i}.discord.com:{}\n", 1000 + i));
    }
    log.push_str("exterior  :443\nexterior  semporta\ndireto    x.com:99999\n");
    let c = interpretar_conexoes(&log, 7);
    assert_eq!(c.len(), 20);
    assert_eq!(c[0].host, "h24.discord.com");
    assert_eq!(c[0].porta, 1024);
    assert_eq!(c[0].hora_utc, 7);
    assert_eq!(c[19].host, "h5.discord.com");
}

#[test]
fn saida_confirma_reinicio() {
    assert!(discord_reiniciado("ok\nDiscord reiniciado\n"));
    assert!(!discord_reiniciado("Discord não estava aberto"));
}

#[test]
fn a_janela_le_o_que_o_servico_escreve_no_log() {
    let u = Upstream::novo("203.0.113.9:1080".to_string(), 87_654_321, "Frankfurt".to_string());
    let log = format!(
        "{}\n{}\n{}\n{}\n",
        linha_validados(4),
        u.linha_de_log(),
        linha_rota(true, "gateway.discord.gg", 443),
        linha_rota(false, "::1", 8080),
    );
    assert_eq!(linha_validados(4), "4 proxies estrangeiros validados");
    assert_eq!(u.linha_de_log(), "  203.0.113.9:1080 (Frankfurt) 87ms");
    let (quantidade, proxy) = dados_do_log(&log);
    assert_eq!(quantidade, 4);
    let proxy = proxy.unwrap();
    assert_eq!(proxy.endereco, "203.0.113.9:1080");
    assert_eq!(proxy.regiao, "Frankfurt");
    assert_eq!(proxy.latencia_ms, 87);
    let c = interpretar_conexoes(&log, 1);
    assert_eq!(c.len(), 2);
    assert_eq!((c[0].host.as_str(), c[0].porta, c[0].rota), ("::1", 8080, "direto"));
    assert_eq!(
        (c[1].host.as_str(), c[1].porta, c[1].rota),
        ("gateway.discord.gg", 443, "exterior")
    );
}
