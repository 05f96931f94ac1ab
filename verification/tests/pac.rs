use fol_discord::pac::texto;

#[test]
fn pac_manda_discord_pro_proxy_e_o_resto_direto() {
    let p = texto(9250);
    assert!(p.contains("SOCKS5 127.0.0.1:9250"));
    assert!(p.contains(".discord.com"));
    assert!(p.contains(".discord.media"));
    assert!(p.trim_end().ends_with('}'));
    assert!(p.contains("return \"DIRECT\""));
}

#[test]
fn a_porta_sai_em_decimal() {
    assert!(texto(0).contains("SOCKS5 127.0.0.1:0\";"));
    assert!(texto(65535).contains("SOCKS5 127.0.0.1:65535\";"));
}
