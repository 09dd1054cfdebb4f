use limpa_downloads::notificacoes::{
    algarismos, argumentos, avisa_de_diretorio_esta_vazio, informa_n_itens_removidos,
    itens_removidos,
};
use limpa_downloads::tempo::Validade;

#[test]
fn algarismos_decimais() {
    assert_eq!(algarismos(0), vec!['0']);
    assert_eq!(algarismos(7), vec!['7']);
    assert_eq!(algarismos(10), vec!['1', '0']);
    assert_eq!(algarismos(1_234_567_890).iter().collect::<String>(), "1234567890");
    assert_eq!(algarismos(u128::MAX).iter().collect::<String>(), u128::MAX.to_string());
}

#[test]
fn notificacao_de_remocao() {
    let n = informa_n_itens_removidos(15);
    assert_eq!(n.nome, "Limpa Downloads");
    assert_eq!(n.icone, "computerjanitor");
    assert_eq!(n.duracao, Validade { segundos: 25, nanos: 0 });
    assert_eq!(n.mensagem, "foram deletados 15 itens!");
    assert_eq!(
        argumentos(&n),
        vec![
            "--expire-time=25000",
            "--icon=computerjanitor",
            "--app-name=Limpa Downloads",
            "foram deletados 15 itens!",
        ]
    );
}

#[test]
fn notificacao_de_diretorio_vazio() {
    let n = avisa_de_diretorio_esta_vazio();
    assert_eq!(
        argumentos(&n),
        vec![
            "--expire-time=20000",
            "--icon=trashcan_empty",
            "--app-name=LimpaDownloads",
            "o diretório está completamente vázio(I)",
        ]
    );
}

#[test]
fn prazo_em_milissegundos() {
    let mut n = informa_n_itens_removidos(0);
    assert_eq!(n.mensagem, "foram deletados 0 itens!");
    n.duracao = Validade { segundos: 7, nanos: 999_999 };
    assert_eq!(argumentos(&n)[0], "--expire-time=7000");
    n.duracao = Validade { segundos: 0, nanos: 1_500_000 };
    assert_eq!(argumentos(&n)[0], "--expire-time=1");
}

#[test]
fn itens_removidos_em_qualquer_ordem() {
    assert_eq!(itens_removidos(10, 7), 3);
    assert_eq!(itens_removidos(7, 10), 3);
    assert_eq!(itens_removidos(5, 5), 0);
    assert_eq!(itens_removidos(0, i32::MAX as usize), i32::MAX as usize);
}
