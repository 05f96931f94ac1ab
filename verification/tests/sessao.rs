use fol_discord::sessao::{Fase, Sessao, SILENCIO, TETO};

const COM_EXTERIOR: bool = true;
const SEM_EXTERIOR: bool = false;

fn t0() -> u64 {
    1_000_000
}

fn s(segundos: u64) -> u64 {
    segundos * 1000
}

#[test]
fn a_janela_espera_a_piscina_encher() {
    let t = t0();
    let mut s_ = Sessao::nova(t);
    assert!(!s_.avaliar(t + s(600), SEM_EXTERIOR));
    assert_eq!(s_.fase(), Fase::Abertura);

    let encheu = t + s(600);
    assert!(!s_.avaliar(encheu + s(9), COM_EXTERIOR));
    assert!(s_.avaliar(encheu + SILENCIO, COM_EXTERIOR));
}

#[test]
fn comeca_em_abertura() {
    assert_eq!(Sessao::nova(t0()).fase(), Fase::Abertura);
}

#[test]
fn silencio_fecha_a_janela() {
    let t = t0();
    let mut s_ = Sessao::nova(t);
    s_.registrar_controle(t);

    assert!(s_.avaliar(t + SILENCIO, COM_EXTERIOR), "o silêncio completo fecha");
    assert_eq!(s_.fase(), Fase::Estabelecida);
}

#[test]
fn trafego_continuo_nao_fecha_antes_do_silencio() {
    let t = t0();
    let mut s_ = Sessao::nova(t);

    s_.registrar_controle(t);
    s_.registrar_controle(t + s(5));

    assert!(!s_.avaliar(t + s(9), COM_EXTERIOR));
    assert_eq!(s_.fase(), Fase::Abertura, "ainda faltam 6s de silêncio");
}

#[test]
fn o_teto_fecha_mesmo_com_trafego_continuo() {
    let t = t0();
    let mut s_ = Sessao::nova(t);

    let mut passo = 0;
    while passo < TETO {
        s_.registrar_controle(t + passo);
        assert!(!s_.avaliar(t + passo, COM_EXTERIOR), "não pode fechar antes do teto");
        passo += s(5);
    }

    assert!(s_.avaliar(t + TETO, COM_EXTERIOR));
    assert_eq!(s_.fase(), Fase::Estabelecida);
}

#[test]
fn a_janela_so_fecha_uma_vez() {
    let t = t0();
    let mut s_ = Sessao::nova(t);
    s_.registrar_controle(t);

    assert!(s_.avaliar(t + SILENCIO, COM_EXTERIOR), "primeira passada fecha");
    assert!(
        !s_.avaliar(t + SILENCIO + s(1), COM_EXTERIOR),
        "já estava fechada; não fecha de novo"
    );
}

#[test]
fn fechar_avisa_quem_esta_no_exterior() {
    let t = t0();
    let mut s_ = Sessao::nova(t);
    let (avisar, mut assinatura) = tokio::sync::broadcast::channel::<()>(1);
    s_.registrar_controle(t);

    assert!(
        assinatura.try_recv().is_err(),
        "com a janela aberta ninguém é derrubado"
    );

    if s_.avaliar(t + SILENCIO, COM_EXTERIOR) {
        avisar.send(()).unwrap();
    }
    if s_.avaliar(t + SILENCIO + s(1), COM_EXTERIOR) {
        avisar.send(()).unwrap();
    }

    assert!(assinatura.try_recv().is_ok(), "fechou, então derruba");
    assert!(
        assinatura.try_recv().is_err(),
        "um aviso só; a conexão não é derrubada duas vezes"
    );
}

#[test]
fn discord_reiniciado_rearma() {
    let t = t0();
    let mut s_ = Sessao::nova(t);
    s_.observar_discord(&[100, 101], t);
    s_.registrar_controle(t);
    s_.avaliar(t + SILENCIO, COM_EXTERIOR);
    assert_eq!(s_.fase(), Fase::Estabelecida);

    assert!(s_.observar_discord(&[300, 301], t + s(60)));
    assert_eq!(s_.fase(), Fase::Abertura);
}

#[test]
fn renderizador_novo_nao_rearma() {
    let t = t0();
    let mut s_ = Sessao::nova(t);
    s_.observar_discord(&[100, 101], t);
    s_.registrar_controle(t);
    s_.avaliar(t + SILENCIO, COM_EXTERIOR);

    assert!(!s_.observar_discord(&[100, 102], t + s(20)));
    assert_eq!(s_.fase(), Fase::Estabelecida);
}

#[test]
fn discord_abrindo_do_zero_rearma() {
    let t = t0();
    let mut s_ = Sessao::nova(t);
    s_.observar_discord(&[], t);
    s_.registrar_controle(t);
    s_.avaliar(t + SILENCIO, COM_EXTERIOR);
    assert_eq!(s_.fase(), Fase::Estabelecida);

    assert!(s_.observar_discord(&[500], t + s(30)));
    assert_eq!(s_.fase(), Fase::Abertura);
}

#[test]
fn discord_fechado_nao_rearma() {
    let t = t0();
    let mut s_ = Sessao::nova(t);
    s_.observar_discord(&[100], t);
    s_.registrar_controle(t);
    s_.avaliar(t + SILENCIO, COM_EXTERIOR);

    assert!(!s_.observar_discord(&[], t + s(30)));
    assert_eq!(s_.fase(), Fase::Estabelecida);
}

#[test]
fn rearmar_reabre_a_contagem_do_silencio() {
    let t = t0();
    let mut s_ = Sessao::nova(t);
    s_.observar_discord(&[100], t);
    s_.registrar_controle(t);
    s_.avaliar(t + SILENCIO, COM_EXTERIOR);

    let depois = t + s(60);
    s_.observar_discord(&[200], depois);
    assert_eq!(s_.fase(), Fase::Abertura);

    assert!(!s_.avaliar(depois + s(9), COM_EXTERIOR));
    assert!(s_.avaliar(depois + SILENCIO, COM_EXTERIOR));
}

#[test]
fn relogio_que_volta_nao_fecha_a_janela() {
    let t = t0();
    let mut s_ = Sessao::nova(t);
    assert!(!s_.avaliar(t - s(500), COM_EXTERIOR));
    assert_eq!(s_.fase(), Fase::Abertura);
}

#[test]
fn uma_leitura_vazia_nao_e_reinicio() {
    let t = t0();
    let mut s_ = Sessao::nova(t);
    s_.observar_discord(&[100, 101], t);
    s_.registrar_controle(t);
    s_.avaliar(t + s(10), COM_EXTERIOR);
    s_.avaliar(t + SILENCIO, COM_EXTERIOR);
    assert_eq!(s_.fase(), Fase::Estabelecida);

    assert!(!s_.observar_discord(&[], t + s(31)));
    assert!(!s_.observar_discord(&[100, 101], t + s(32)));
    assert_eq!(s_.fase(), Fase::Estabelecida);
}

#[test]
fn duas_leituras_vazias_tambem_nao() {
    let t = t0();
    let mut s_ = Sessao::nova(t);
    s_.observar_discord(&[100, 101], t);
    s_.registrar_controle(t);
    s_.avaliar(t + SILENCIO, COM_EXTERIOR);

    assert!(!s_.observar_discord(&[], t + s(31)));
    assert!(!s_.observar_discord(&[], t + s(32)));
    assert!(!s_.observar_discord(&[100, 101], t + s(33)));
    assert_eq!(s_.fase(), Fase::Estabelecida);
}

#[test]
fn tres_leituras_vazias_fecham_o_discord() {
    let t = t0();
    let mut s_ = Sessao::nova(t);
    s_.observar_discord(&[100, 101], t);
    s_.registrar_controle(t);
    s_.avaliar(t + SILENCIO, COM_EXTERIOR);

    assert!(!s_.observar_discord(&[], t + s(31)));
    assert!(!s_.observar_discord(&[], t + s(32)));
    assert!(!s_.observar_discord(&[], t + s(33)));
    assert!(s_.observar_discord(&[100, 101], t + s(34)));
    assert_eq!(s_.fase(), Fase::Abertura);
}

#[test]
fn leitura_com_processos_zera_a_contagem_de_vazias() {
    let t = t0();
    let mut s_ = Sessao::nova(t);
    s_.observar_discord(&[100], t);
    s_.registrar_controle(t);
    s_.avaliar(t + SILENCIO, COM_EXTERIOR);

    assert!(!s_.observar_discord(&[], t + s(31)));
    assert!(!s_.observar_discord(&[], t + s(32)));
    assert!(!s_.observar_discord(&[100], t + s(33)));
    assert!(!s_.observar_discord(&[], t + s(34)));
    assert!(!s_.observar_discord(&[], t + s(35)));
    assert!(!s_.observar_discord(&[100], t + s(36)));
    assert_eq!(s_.fase(), Fase::Estabelecida);
}

#[test]
fn os_prazos_da_janela() {
    assert_eq!(SILENCIO, 30_000);
    assert_eq!(TETO, 120_000);
}
