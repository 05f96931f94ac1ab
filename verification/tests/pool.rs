use fol_discord::pool::{
    acrescentar_candidatos, conferir_candidatos, deve_reabastecer, recolher, ErroReabastecer, ALVO_VALIDADOS, parece_ip_porta, regiao_da_lista, validado, validar_resposta, Pool, Upstream,
    MINIMO_SAUDAVEIS,
};

fn upstream(endereco: &str, latencia_ms: u64) -> Upstream {
    Upstream::novo(endereco.into(), latencia_ms * 1_000_000, "rotterdam".into())
}

#[test]
fn a_segunda_escolha_pula_quem_acabou_de_falhar() {
    let mut p = Pool::de_teste(&["a:1080", "b:1080"]);
    assert_eq!(p.melhor().as_deref(), Some("a:1080"));

    p.marcar_falha("a:1080");
    assert_eq!(p.melhor().as_deref(), Some("a:1080"));
    assert_eq!(p.melhor_exceto(&["a:1080".into()]).as_deref(), Some("b:1080"));
    assert_eq!(p.melhor_exceto(&["a:1080".into(), "b:1080".into()]), None);
}

#[test]
fn reconhece_ip_porta() {
    assert!(parece_ip_porta("5.255.99.75:1080"));
    assert!(!parece_ip_porta("exemplo.com:1080"));
    assert!(!parece_ip_porta("5.255.99.75"));
    assert!(!parece_ip_porta("5.255.99.999:1080"));
    assert!(!parece_ip_porta("5.255.99.75:99999"));
}

#[test]
fn duas_falhas_removem_da_fila() {
    let mut p = Pool::nova();
    p.definir(vec![upstream("1.2.3.4:1080", 100)]);
    assert_eq!(p.quantidade(), 1);
    p.marcar_falha("1.2.3.4:1080");
    assert_eq!(p.quantidade(), 1, "uma falha ainda perdoa");
    p.marcar_falha("1.2.3.4:1080");
    assert_eq!(p.quantidade(), 0, "duas falhas eliminam");
}

#[test]
fn melhor_e_o_de_menor_latencia() {
    let mut p = Pool::nova();
    p.definir(vec![
        Upstream::novo("lento:1080".into(), 900_000_000, "frankfurt".into()),
        upstream("rapido:1080", 120),
    ]);
    assert_eq!(p.melhor().unwrap(), "rapido:1080");
}

#[test]
fn falha_que_deixa_a_piscina_magra_pede_reabastecimento() {
    let mut p = Pool::nova();
    p.definir(vec![upstream("1.2.3.4:1080", 100)]);
    assert!(p.marcar_falha("1.2.3.4:1080"), "abaixo do mínimo a manutenção tem que acordar");
}

#[test]
fn falha_numa_piscina_cheia_nao_pede_reabastecimento() {
    let mut p = Pool::nova();
    p.definir(
        (0..MINIMO_SAUDAVEIS + 1)
            .map(|i| upstream(&format!("10.0.0.{i}:1080"), 100))
            .collect(),
    );
    assert!(!p.marcar_falha("10.0.0.0:1080"));
    assert_eq!(p.quantidade(), MINIMO_SAUDAVEIS + 1);
}

#[test]
fn ordem_estavel_entre_latencias_iguais() {
    let mut p = Pool::nova();
    p.definir(vec![upstream("b:1", 100), upstream("a:1", 50), upstream("c:1", 100)]);
    let nomes: Vec<String> = p.listar().into_iter().map(|u| u.endereco).collect();
    assert_eq!(nomes, vec!["a:1", "b:1", "c:1"]);
    assert_eq!(p.listar()[0].falhas(), 0);
}

#[test]
fn candidatos_aparados_validos_e_sem_repeticao() {
    let mut saida: Vec<String> = vec!["1.1.1.1:80".into()];
    acrescentar_candidatos(
        &mut saida,
        "  2.2.2.2:1080 \r\nlixo\n1.1.1.1:80\n2.2.2.2:1080\n3.3.3.3:99999\n4.4.4.4:1\n",
    );
    assert_eq!(saida, vec!["1.1.1.1:80", "2.2.2.2:1080", "4.4.4.4:1"]);
}

#[test]
fn candidato_na_regiao_brazil_fica_de_fora() {
    assert!(validado("1.2.3.4:1080".into(), 5, Some("brazil".into())).is_none());
    assert!(validado("1.2.3.4:1080".into(), 5, None).is_none());
    let u = validado("1.2.3.4:1080".into(), 5, Some("rotterdam".into())).unwrap();
    assert_eq!(u.regiao, "rotterdam");
    assert_eq!(u.latencia_ns, 5);
}

#[test]
fn a_regiao_vem_da_primeira_entrada_da_sonda() {
    let u = validar_resposta(
        "1.2.3.4:1080".into(),
        7,
        r#"[{"region":"frankfurt","ips":[]},{"region":"brazil"}]"#,
    )
    .unwrap();
    assert_eq!(u.regiao, "frankfurt");
    assert!(validar_resposta("x:1".into(), 7, r#"[{"region":"brazil"}]"#).is_none());
    assert!(validar_resposta("x:1".into(), 7, "[]").is_none());
    assert!(validar_resposta("x:1".into(), 7, "não é json").is_none());
    assert!(validar_resposta("x:1".into(), 7, r#"[{"region":3}]"#).is_none());
}

#[test]
fn a_regiao_e_a_da_primeira_entrada_da_lista() {
    assert_eq!(
        regiao_da_lista(Some(vec![Some("rotterdam".to_string()), Some("brazil".to_string())])),
        Some("rotterdam".to_string())
    );
    assert_eq!(regiao_da_lista(Some(vec![None, Some("rotterdam".to_string())])), None);
    assert_eq!(regiao_da_lista(Some(vec![])), None);
    assert_eq!(regiao_da_lista(None), None);
}

#[test]
fn so_a_piscina_magra_reabastece() {
    assert!(deve_reabastecer(0));
    assert!(deve_reabastecer(2));
    assert!(!deve_reabastecer(3));
    assert!(!deve_reabastecer(10));
    assert_eq!(MINIMO_SAUDAVEIS, 3);
}

#[test]
fn sem_candidatos_o_reabastecimento_desiste() {
    assert_eq!(conferir_candidatos(&vec![]), Err(ErroReabastecer::SemCandidatos));
    assert_eq!(conferir_candidatos(&vec!["1.2.3.4:1080".to_string()]), Ok(()));
    assert_eq!(
        ErroReabastecer::SemCandidatos.mensagem(),
        "nenhum candidato nas listas públicas"
    );
}

#[test]
fn o_reabastecimento_para_no_alvo_de_validados() {
    let mut bons: Vec<Upstream> = Vec::new();
    assert!(!recolher(&mut bons, None));
    assert!(bons.is_empty());
    for i in 0..ALVO_VALIDADOS - 1 {
        assert!(!recolher(&mut bons, Some(upstream(&format!("1.1.1.{i}:1080"), 10))));
    }
    assert!(!recolher(&mut bons, None));
    assert!(recolher(&mut bons, Some(upstream("9.9.9.9:1080", 10))));
    assert_eq!(bons.len(), ALVO_VALIDADOS);
    assert_eq!(bons[ALVO_VALIDADOS - 1].endereco, "9.9.9.9:1080");
    assert_eq!(ALVO_VALIDADOS, 15);
}
