use fol_discord::socks::{
    analisar_pedido, analisar_resposta, metodo_aceito, pedido_connect, recusa, resposta_ok,
    saudacao, ErroSocks, Pedido, Resposta, RESPOSTA_METODO, SAUDACAO_UPSTREAM,
};

#[test]
fn saudacao_so_aceita_a_versao_cinco() {
    assert_eq!(saudacao([5, 2]), Ok(2));
    assert_eq!(saudacao([4, 1]), Err(ErroSocks::VersaoNaoSuportada(4)));
    assert_eq!(RESPOSTA_METODO, [5, 0]);
    assert_eq!(SAUDACAO_UPSTREAM, [5, 1, 0]);
}

#[test]
fn pedido_por_nome_pede_bytes_ate_completar() {
    let mut b = vec![5, 1, 0, 3];
    assert_eq!(analisar_pedido(&b[..2]), Pedido::Falta(4));
    assert_eq!(analisar_pedido(&b), Pedido::Falta(5));
    b.push(11);
    assert_eq!(analisar_pedido(&b), Pedido::Falta(16));
    b.extend_from_slice(b"discord.com");
    assert_eq!(analisar_pedido(&b), Pedido::Falta(18));
    b.extend_from_slice(&443u16.to_be_bytes());
    assert_eq!(
        analisar_pedido(&b),
        Pedido::Pronto { host: "discord.com".into(), porta: 443 }
    );
}

#[test]
fn pedido_por_ipv4_e_ipv6() {
    assert_eq!(
        analisar_pedido(&[5, 1, 0, 1, 162, 159, 128, 233, 0x01, 0xbb]),
        Pedido::Pronto { host: "162.159.128.233".into(), porta: 443 }
    );
    let mut v6 = vec![5, 1, 0, 4];
    v6.extend_from_slice(&[0x20, 0x01, 0x0d, 0xb8, 0, 0, 0, 0, 0, 0, 0, 0, 0, 0, 0, 1]);
    v6.extend_from_slice(&[0, 80]);
    assert_eq!(
        analisar_pedido(&v6),
        Pedido::Pronto { host: "2001:db8::1".into(), porta: 80 }
    );
}

#[test]
fn pedido_recusado_ou_invalido() {
    assert_eq!(
        analisar_pedido(&[5, 2, 0, 1]),
        Pedido::Recusar(7, ErroSocks::SoConnect)
    );
    assert_eq!(
        analisar_pedido(&[5, 1, 0, 9]),
        Pedido::Recusar(8, ErroSocks::TipoDeEnderecoDesconhecido(9))
    );
    assert_eq!(
        analisar_pedido(&[5, 1, 0, 3, 2, 0xff, 0xfe]),
        Pedido::Invalido(ErroSocks::NomeInvalido)
    );
    assert_eq!(recusa(7), [5, 7, 0, 1, 0, 0, 0, 0, 0, 0]);
    assert_eq!(resposta_ok(), [5, 0, 0, 1, 0, 0, 0, 0, 0, 0]);
}

#[test]
fn encadear_pede_por_nome_e_le_a_resposta() {
    let pedido = pedido_connect("gateway.discord.gg", 443).unwrap();
    let mut esperado = vec![5, 1, 0, 3, 18];
    esperado.extend_from_slice(b"gateway.discord.gg");
    esperado.extend_from_slice(&[1, 187]);
    assert_eq!(pedido, esperado);
    assert_eq!(
        analisar_pedido(&pedido),
        Pedido::Pronto { host: "gateway.discord.gg".into(), porta: 443 }
    );
    assert_eq!(pedido_connect(&"a".repeat(256), 1), Err(ErroSocks::HostLongoDemais));

    assert!(metodo_aceito([5, 0]));
    assert!(!metodo_aceito([5, 0xff]));
    assert_eq!(analisar_resposta(&[5, 0]), Resposta::Falta(4));
    assert_eq!(analisar_resposta(&[5, 0, 0, 1]), Resposta::Falta(10));
    assert_eq!(analisar_resposta(&[5, 0, 0, 1, 1, 2, 3, 4, 0, 80]), Resposta::Aceita);
    assert_eq!(analisar_resposta(&[5, 0, 0, 3]), Resposta::Falta(5));
    assert_eq!(analisar_resposta(&[5, 0, 0, 3, 2]), Resposta::Falta(9));
    assert_eq!(analisar_resposta(&[5, 0, 0, 4]), Resposta::Falta(22));
    assert_eq!(
        analisar_resposta(&[5, 5, 0, 1]),
        Resposta::Falhou(ErroSocks::ConexaoRecusada(5))
    );
    assert_eq!(
        analisar_resposta(&[5, 0, 0, 7]),
        Resposta::Falhou(ErroSocks::RespostaIlegivel(7))
    );
}
