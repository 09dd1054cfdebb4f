use limpa_downloads::letreiro::{Letreiro, Sorteio};
use limpa_downloads::tempo::Validade;
use std::time::Instant;

const SORTEIO: Sorteio = Sorteio { fator: 5, acrescimo: 255, acima: true };

#[test]
fn letreiro_sem_rotulo() {
    assert_eq!(Letreiro::novo("", SORTEIO).err(), Some("não é permitido strings em branco"));
}

#[test]
fn letreiro_curto_mostra_o_rotulo() {
    let l = Letreiro::novo("relatório.pdf", SORTEIO).unwrap();
    assert_eq!(l.texto().unwrap(), "relatorio.pdf");
}

#[test]
fn remocao_de_acentos() {
    let mut s = String::from("ação é à âncora; você, júri, índio, ótimo, pôr");
    Letreiro::remove_acentuacao(&mut s);
    assert_eq!(s, "acao e a ancora; voce, juri, indio, otimo, por");
    let mut sem = String::from("nada muda ñ");
    Letreiro::remove_acentuacao(&mut sem);
    assert_eq!(sem, "nada muda ñ");
}

#[test]
fn rolo_repete_o_rotulo() {
    assert_eq!(Letreiro::cria_rolo("ab"), " ab  ab  ab  ab  ab ");
    assert_eq!(Letreiro::cria_rolo("pé"), " pe  pe  pe  pe  pe ");
}

fn longo() -> &'static str {
    "um_nome_de_arquivo_bem_comprido_demais.tar.gz"
}

#[test]
fn letreiro_longo_mostra_trecho() {
    let l = Letreiro::novo(longo(), SORTEIO).unwrap();
    let rolo = Letreiro::cria_rolo(longo());
    assert_eq!(l.texto().unwrap(), format!("{}...", &rolo[0..30]));
}

#[test]
fn letreiro_anda_depois_da_pausa() {
    // pausa de 1000 + 5 * 255 = 2275 ms.
    let mut l = Letreiro::novo(longo(), SORTEIO).unwrap();
    let rolo = Letreiro::cria_rolo(longo());
    l.movimenta_apos(Validade { segundos: 2, nanos: 275_000_000 }, Instant::now());
    assert_eq!(l.texto().unwrap(), format!("{}...", &rolo[0..30]));
    l.movimenta_apos(Validade { segundos: 2, nanos: 275_000_001 }, Instant::now());
    assert_eq!(l.texto().unwrap(), format!("{}...", &rolo[1..31]));
    l.movimenta_apos(Validade { segundos: 10, nanos: 0 }, Instant::now());
    assert_eq!(l.texto().unwrap(), format!("{}...", &rolo[2..32]));
}

#[test]
fn pausa_abaixo_de_um_segundo() {
    // 1000 - 1 * 200 = 800 ms.
    let s = Sorteio { fator: 1, acrescimo: 200, acima: false };
    let mut l = Letreiro::novo(longo(), s).unwrap();
    let rolo = Letreiro::cria_rolo(longo());
    l.movimenta_apos(Validade { segundos: 0, nanos: 800_000_000 }, Instant::now());
    assert_eq!(l.texto().unwrap(), format!("{}...", &rolo[0..30]));
    l.movimenta_apos(Validade { segundos: 0, nanos: 800_000_001 }, Instant::now());
    assert_eq!(l.texto().unwrap(), format!("{}...", &rolo[1..31]));
    // 5 * 255 - 1000 = 275 ms.
    let s = Sorteio { fator: 5, acrescimo: 255, acima: false };
    let mut l = Letreiro::novo(longo(), s).unwrap();
    l.movimenta_apos(Validade { segundos: 0, nanos: 276_000_000 }, Instant::now());
    assert_eq!(l.texto().unwrap(), format!("{}...", &rolo[1..31]));
}

#[test]
fn letreiro_volta_ao_comeco() {
    // rolo de 5 * (30 + 2) = 160 bytes; a janela anda até a ponta direita chegar ao fim.
    let rotulo = "abcdefghijklmnopqrstuvwxyz0123";
    let mut l = Letreiro::novo(rotulo, SORTEIO).unwrap();
    let rolo = Letreiro::cria_rolo(rotulo);
    assert_eq!(rolo.len(), 160);
    let passo = Validade { segundos: 60, nanos: 0 };
    for _ in 0..130 {
        l.movimenta_apos(passo, Instant::now());
    }
    assert_eq!(l.texto().unwrap(), format!("{}...", &rolo[130..160]));
    // na ponta, volta ao começo e anda uma casa.
    l.movimenta_apos(passo, Instant::now());
    assert_eq!(l.texto().unwrap(), format!("{}...", &rolo[1..31]));
}

#[test]
fn letreiro_com_relogio() {
    let mut l = Letreiro::novo(longo(), SORTEIO).unwrap();
    let rolo = Letreiro::cria_rolo(longo());
    l.movimenta_letreiro();
    // acabou de ser criado: a pausa de 2275 ms ainda não passou.
    assert_eq!(l.texto().unwrap(), format!("{}...", &rolo[0..30]));
}

#[test]
fn letreiro_sem_fronteira_nao_tem_texto() {
    // "ñ" não perde o acento e ocupa 2 bytes: o byte 30 do rolo cai no meio de um.
    let rotulo: String = std::iter::repeat('ñ').take(20).collect();
    let l = Letreiro::novo(&rotulo, SORTEIO).unwrap();
    assert_eq!(l.texto(), None);
}
