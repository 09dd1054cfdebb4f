use limpa_downloads::remocao_dir::{dir_sem_arquivos, diretorio_vazio, Entrada};
use limpa_downloads::remocao_diretorio::tempo_medio;
use limpa_downloads::tempo::Validade;
use std::time::Duration;

fn dir(v: Vec<Entrada>) -> Entrada {
    Entrada::Diretorio(v)
}

#[test]
fn diretorio_vazio_ou_nao() {
    assert!(diretorio_vazio(&dir(vec![])));
    assert!(!diretorio_vazio(&dir(vec![Entrada::Arquivo])));
    assert!(!diretorio_vazio(&dir(vec![dir(vec![])])));
    // o que não se pode listar conta como vazio.
    assert!(diretorio_vazio(&Entrada::Arquivo));
    assert!(diretorio_vazio(&Entrada::Outro));
}

#[test]
fn diretorios_so_com_diretorios() {
    assert!(dir_sem_arquivos(&dir(vec![])));
    let arvore = dir(vec![dir(vec![dir(vec![]), dir(vec![])]), dir(vec![])]);
    assert!(dir_sem_arquivos(&arvore));
}

#[test]
fn diretorios_com_arquivos() {
    assert!(!dir_sem_arquivos(&Entrada::Arquivo));
    let fundo = dir(vec![dir(vec![dir(vec![Entrada::Arquivo])]), dir(vec![])]);
    assert!(!dir_sem_arquivos(&fundo));
    // a contagem para em 255, mas ainda distingue do zero.
    let muitos = dir((0..600).map(|_| Entrada::Arquivo).collect());
    assert!(!dir_sem_arquivos(&muitos));
}

#[test]
fn variantes_de_arquivo_contam_como_arquivos() {
    // linques quebrados, filas e soquetes não são arquivos nem diretórios, mas contam.
    assert!(!dir_sem_arquivos(&Entrada::Outro));
    let arvore = dir(vec![dir(vec![]), dir(vec![Entrada::Outro])]);
    assert!(!dir_sem_arquivos(&arvore));
}

fn de(d: Duration) -> Validade {
    Validade { segundos: d.as_secs(), nanos: d.subsec_nanos() }
}

#[test]
fn tempo_medio_exato() {
    let ds = vec![Duration::from_secs(1), Duration::from_secs(2), Duration::from_secs(4)];
    let m = tempo_medio(&ds.iter().map(|d| de(*d)).collect());
    assert_eq!(m, Validade { segundos: 2, nanos: 333_333_333 });
    let soma: Duration = ds.iter().sum();
    assert_eq!(m, de(soma / 3));
}

#[test]
fn tempo_medio_com_fracoes() {
    let ds = vec![Duration::new(1, 2), Duration::new(0, 0), Duration::new(0, 0)];
    let m = tempo_medio(&ds.iter().map(|d| de(*d)).collect());
    assert_eq!(m, Validade { segundos: 0, nanos: 333_333_334 });
    assert_eq!(m, de(Duration::new(1, 2) / 3));
    let uma = vec![Validade { segundos: 7, nanos: 5 }];
    assert_eq!(tempo_medio(&uma), Validade { segundos: 7, nanos: 5 });
}
