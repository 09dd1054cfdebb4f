use limpa_downloads::links::{
    compilacao_final, linques_locais, nome_do_linque, raiz_do_projeto, tipo_de_visualizacao, Visualizacao,
};

fn textos(v: &[&str]) -> Vec<String> {
    v.iter().map(|s| s.to_string()).collect()
}

#[test]
fn raiz_do_projeto_pelo_ultimo_componente() {
    let partes = textos(&["/", "home", "eu", "limpa-downloads", "target", "release", "limpa_downloads"]);
    assert_eq!(raiz_do_projeto(&partes), Some(4));
    let duas = textos(&["/", "limpa-downloads", "x", "limpa-downloads", "target"]);
    assert_eq!(raiz_do_projeto(&duas), Some(4));
    let no_fim = textos(&["/", "limpa-downloads"]);
    assert_eq!(raiz_do_projeto(&no_fim), Some(2));
}

#[test]
fn raiz_do_projeto_ausente() {
    assert_eq!(raiz_do_projeto(&textos(&["/", "usr", "bin", "limpa_downloads"])), None);
    assert_eq!(raiz_do_projeto(&Vec::new()), None);
}

#[test]
fn nomes_dos_linques() {
    assert_eq!(
        linques_locais("limpa-downloads", true),
        ("target/debug/limpa_downloads".to_string(), "limpa-downloads-debug".to_string())
    );
    assert_eq!(
        linques_locais("limpa-downloads", false),
        ("target/release/limpa_downloads".to_string(), "limpa-downloads".to_string())
    );
    assert_eq!(nome_do_linque(true), "limpa-downloads-debug");
    assert_eq!(nome_do_linque(false), "limpa-downloads");
}

#[test]
fn visualizacao_pelos_argumentos() {
    assert_eq!(tipo_de_visualizacao(&textos(&["prog", "--ncurses"])), Visualizacao::Grafica);
    assert_eq!(tipo_de_visualizacao(&textos(&["prog", "--lanca-janela"])), Visualizacao::NovaJanela);
    assert_eq!(
        tipo_de_visualizacao(&textos(&["prog", "--lanca-janela", "--ncurses"])),
        Visualizacao::Grafica
    );
    assert_eq!(tipo_de_visualizacao(&textos(&["prog"])), Visualizacao::Texto);
    assert_eq!(tipo_de_visualizacao(&textos(&["prog", "--NCURSES"])), Visualizacao::Texto);
}

#[test]
fn compilacao_final_pelo_caminho() {
    assert!(compilacao_final(&textos(&["/", "p", "target", "release", "limpa_downloads"])));
    assert!(!compilacao_final(&textos(&["/", "p", "target", "debug", "limpa_downloads"])));
    assert!(!compilacao_final(&textos(&["/", "p", "releases"])));
}
