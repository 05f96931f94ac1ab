use fol_discord::routing::{decide_regiao, decidir, e_gateway, nome_bem_formado, Rota};
use fol_discord::sessao::Fase;

const DISCORD_INTEIRO: &[&str] = &[
    "discord.com",
    "gateway.discord.gg",
    "gateway-us-east1-b.discord.gg",
    "latency.discord.media",
    "cdn.discordapp.com",
    "c-gru17-851904d3.discord.media",
    "status.discord.com",
    "discord.gg",
    "DISCORD.COM.",
];

#[test]
fn na_abertura_todo_o_discord_sai_por_fora() {
    for h in DISCORD_INTEIRO {
        assert_eq!(decidir(h, Fase::Abertura), Rota::Exterior, "{h}");
    }
}

#[test]
fn resto_da_internet_vai_direto() {
    for h in [
        "google.com",
        "api.spotify.com",
        "discord.com.evil.net",
        "media.discordapp.net",
    ] {
        assert_eq!(decidir(h, Fase::Abertura), Rota::Direta, "{h}");
    }
}

#[test]
fn nao_confunde_sufixo() {
    for h in ["naodiscord.com", "meudiscord.gg", "xdiscord.media"] {
        assert_eq!(decidir(h, Fase::Abertura), Rota::Direta, "{h}");
    }
}

#[test]
fn nome_mal_formado_nunca_sai_por_fora() {
    for h in [
        "evil.com\0.discord.com",
        "evil.com\n.discord.com",
        "a b.discord.com",
        "",
    ] {
        assert_eq!(decidir(h, Fase::Abertura), Rota::Direta, "{h:?}");
    }
}

#[test]
fn com_a_sessao_aberta_tudo_vai_direto() {
    for h in DISCORD_INTEIRO {
        assert_eq!(decidir(h, Fase::Estabelecida), Rota::Direta, "{h}");
    }
}

#[test]
fn so_quem_decide_regiao_alimenta_o_relogio() {
    for h in [
        "discord.com",
        "Discord.com",
        "gateway.discord.gg",
        "gateway-us-east1-b.discord.gg",
        "latency.discord.media",
    ] {
        assert!(decide_regiao(h), "{h} decide a região");
    }

    for h in [
        "cdn.discordapp.com",
        "c-gru17-851904d3.discord.media",
        "status.discord.com",
        "discord.gg",
        "discordapp.com",
        "remote-auth-gateway.discord.gg",
        "google.com",
    ] {
        assert!(!decide_regiao(h), "{h} não decide a região");
    }
}

#[test]
fn o_que_decide_regiao_tambem_e_desviado() {
    for h in ["discord.com", "gateway-us-east1-b.discord.gg", "latency.discord.media"] {
        assert!(decide_regiao(h));
        assert_eq!(decidir(h, Fase::Abertura), Rota::Exterior, "{h}");
    }
}

#[test]
fn reconhece_o_gateway_em_todos_os_sabores() {
    assert!(e_gateway("gateway.discord.gg"));
    assert!(e_gateway("gateway-us-east1-b.discord.gg"));
    assert!(!e_gateway("remote-auth-gateway.discord.gg"));
    assert!(!e_gateway("discord.gg"));
    assert!(!e_gateway("gateway.discord.com"));
}

#[test]
fn nome_bem_formado_aceita_so_caracteres_de_dns() {
    assert!(nome_bem_formado("gateway-us-east1-b.discord.gg"));
    assert!(nome_bem_formado("_dmarc.discord.com"));
    assert!(!nome_bem_formado(""));
    assert!(!nome_bem_formado("a b.discord.com"));
    assert!(!nome_bem_formado("ção.discord.com"));
    assert!(nome_bem_formado(&"a".repeat(253)));
    assert!(!nome_bem_formado(&"a".repeat(254)));
}

#[test]
fn pontos_finais_e_maiusculas_nao_mudam_a_rota() {
    assert_eq!(decidir("GATEWAY.Discord.GG...", Fase::Abertura), Rota::Exterior);
    assert!(decide_regiao("Latency.Discord.Media."));
    assert!(e_gateway("Gateway-Sa.Discord.gg."));
}
