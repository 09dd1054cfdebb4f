use limpa_downloads::interface::{continua, restante_do_temporizador, rotulo_de_remocao, tecla_de_saida};
use limpa_downloads::tempo::Validade;

#[test]
fn teclas_de_saida() {
    for c in ['s', 'S', 'q', 'Q'] {
        assert!(tecla_de_saida(c));
    }
    for c in ['a', 'x', ' ', 'ś'] {
        assert!(!tecla_de_saida(c));
    }
}

#[test]
fn temporizador_da_interface() {
    let prazo = Validade::de_segundos(80);
    assert_eq!(restante_do_temporizador(prazo, Validade { segundos: 30, nanos: 500 }), Validade { segundos: 49, nanos: 999_999_500 });
    assert_eq!(restante_do_temporizador(prazo, Validade::de_segundos(80)), Validade::de_segundos(0));
    assert_eq!(restante_do_temporizador(prazo, Validade::de_segundos(81)), Validade::de_segundos(0));
}

#[test]
fn quando_a_interface_continua() {
    let prazo = Validade::de_segundos(80);
    let cedo = Validade::de_segundos(10);
    let tarde = Validade { segundos: 80, nanos: 1 };
    assert!(continua(false, false, cedo, prazo));
    assert!(!continua(false, false, tarde, prazo));
    assert!(continua(false, true, tarde, prazo));
    assert!(!continua(true, true, cedo, prazo));
    assert!(continua(false, false, prazo, prazo));
}

#[test]
fn rotulo_do_aviso_de_remocao() {
    assert_eq!(rotulo_de_remocao("arquivo.zip", 80).unwrap(), "\"arquivo.zip\"");
    assert_eq!(rotulo_de_remocao("abcdefghijklmnopqrstuvwxyz", 25).unwrap(), "\"abcdef\"...");
    assert_eq!(rotulo_de_remocao("abcdefghijklmnopqrstuvwxyz", 26).unwrap(), "\"abcdefghijklmnopqrstuvwxyz\"");
    // o corte em bytes cai depois do "ç" (2 bytes).
    assert_eq!(rotulo_de_remocao("çabcdefghijklmnopqrstuvwxyz", 22).unwrap(), "\"ça\"...");
    // o corte no meio do "ç" ou numa tela mais estreita que a margem não dá nome.
    assert_eq!(rotulo_de_remocao("çabcdefghijklmnopqrstuvwxyz", 20), None);
    assert_eq!(rotulo_de_remocao("abcdefghijklmnopqrstuvwxyz", 10), None);
    assert_eq!(rotulo_de_remocao("curto", 3), None);
}
