use limpa_downloads::tempo::{milissegundos, Cronometro, Temporizador, Validade};

#[test]
fn validade_em_nanos() {
    let v = Validade::de_nanos(3_500_000_001);
    assert_eq!(v, Validade { segundos: 3, nanos: 500_000_001 });
    assert_eq!(v.nanos_totais(), 3_500_000_001);
    assert_eq!(Validade::de_segundos(9), Validade { segundos: 9, nanos: 0 });
    assert_eq!(milissegundos(v), 3_500);
    assert_eq!(milissegundos(Validade { segundos: 0, nanos: 999_999 }), 0);
}

#[test]
fn temporizador_conta_ate_a_meta() {
    let mut t = Temporizador::cria(Validade::de_segundos(10));
    assert_eq!(t.meta(), 10);
    assert!(!*t);
    assert_eq!(t.decorrido_apos(Validade { segundos: 3, nanos: 500_000_000 }), 3_500);
    assert!(!*t);
    assert_eq!(t.decorrido_apos(Validade::de_segundos(10)), 10);
    assert!(*t);
}

#[test]
fn temporizador_esgotado_permanece() {
    let mut t = Temporizador::cria(Validade::de_segundos(10));
    assert_eq!(t.decorrido_apos(Validade::de_segundos(12)), 10);
    assert_eq!(t.decorrido_apos(Validade::de_segundos(1)), 10);
    assert_eq!(t.decorrido_apos(Validade { segundos: 0, nanos: 0 }), 10);
    assert!(*t);
}

#[test]
fn temporizador_pelo_relogio() {
    let mut t = Temporizador::cria(Validade::de_segundos(100));
    assert!(t.decorrido() < 100_000);
    assert_eq!(t.decorrido_seg(), 0);
    assert!(!*t);
    let mut zero = Temporizador::cria(Validade::de_segundos(0));
    assert_eq!(zero.decorrido(), 0);
    assert!(*zero);
}

#[test]
fn cronometro_marca() {
    let mut c = Cronometro::cria();
    assert!(c.marca() < 60_000);
    c.reseta();
    assert!(c.marca() < 60_000);
}
