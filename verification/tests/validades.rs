use limpa_downloads::tempo::Validade;
use limpa_downloads::validades::{
    definicao_da_extensao, duracao_para_devida_extensao, duracao_para_diretorio,
    unwrap_such_value_array, ErroDefinicao, ValorDefinicao,
};

fn seg(s: u64) -> Validade {
    Validade { segundos: s, nanos: 0 }
}

#[test]
fn validade_por_extensao_conhecida() {
    assert_eq!(duracao_para_devida_extensao("iso"), seg(6_998_400));
    assert_eq!(duracao_para_devida_extensao("zip"), seg(17_280));
    assert_eq!(duracao_para_devida_extensao("ttf"), seg(1_937));
    assert_eq!(duracao_para_devida_extensao("deb"), seg(1_937));
    assert_eq!(duracao_para_devida_extensao("pdf"), seg(34_560));
    assert_eq!(duracao_para_devida_extensao("torrent"), seg(2_712));
    assert_eq!(duracao_para_devida_extensao("dat"), seg(432));
    assert_eq!(duracao_para_devida_extensao("djvu"), seg(432));
    assert_eq!(duracao_para_devida_extensao("toml"), seg(432));
    assert_eq!(duracao_para_devida_extensao("epub"), seg(829_439));
    assert_eq!(duracao_para_devida_extensao("tar"), seg(13_680));
    assert_eq!(duracao_para_devida_extensao("gz"), seg(13_680));
}

#[test]
fn validade_por_extensao_confere_com_ponto_flutuante() {
    // os prazos são os produtos em ponto flutuante, truncados.
    assert_eq!(duracao_para_devida_extensao("iso").segundos, (2.7 * 30.0 * 24.0 * 3600.0) as u64);
    assert_eq!(duracao_para_devida_extensao("ttf").segundos, (32.3 * 60.0) as u64);
    assert_eq!(duracao_para_devida_extensao("epub").segundos, (9.6 * 24.0 * 3600.0) as u64);
    assert_eq!(duracao_para_devida_extensao("mp4").segundos, (5.9 * 3600.0) as u64);
}

#[test]
fn validade_por_extensao_desconhecida() {
    assert_eq!(duracao_para_devida_extensao("mp4"), seg(21_240));
    assert_eq!(duracao_para_devida_extensao(""), seg(21_240));
    assert_eq!(duracao_para_devida_extensao("ISO"), seg(21_240));
    assert_eq!(duracao_para_devida_extensao("isos"), seg(21_240));
}

#[test]
fn validade_de_diretorio() {
    assert_eq!(duracao_para_diretorio(true, false), seg(300));
    assert_eq!(duracao_para_diretorio(true, true), seg(300));
    assert_eq!(duracao_para_diretorio(false, false), seg(1_200_960));
    assert_eq!(duracao_para_diretorio(false, true), seg(834));
    let dia: f32 = 24.0 * 3600.0;
    assert_eq!(duracao_para_diretorio(false, false).segundos, (dia * 13.9) as u64);
    let dia_de_teste: f32 = 60.0;
    assert_eq!(duracao_para_diretorio(false, true).segundos, (dia_de_teste * 13.9) as u64);
}

fn lista(itens: &[Option<&str>]) -> ValorDefinicao {
    ValorDefinicao::Lista(itens.iter().map(|x| x.map(|s| s.to_string())).collect())
}

#[test]
fn texto_de_definicao() {
    let t = ValorDefinicao::Texto("3h".to_string());
    assert_eq!(unwrap_such_value_array(t, false), Ok("3h".to_string()));
    let l = lista(&[Some("2dias"), Some("5min")]);
    assert_eq!(unwrap_such_value_array(l, false), Ok("2dias".to_string()));
    let l = lista(&[Some("2dias"), Some("5min")]);
    assert_eq!(unwrap_such_value_array(l, true), Ok("5min".to_string()));
}

#[test]
fn defeitos_de_definicao() {
    assert_eq!(unwrap_such_value_array(lista(&[Some("1h")]), true), Err(ErroDefinicao::ItemAusente));
    assert_eq!(unwrap_such_value_array(lista(&[]), false), Err(ErroDefinicao::ItemAusente));
    assert_eq!(unwrap_such_value_array(lista(&[None, Some("1h")]), false), Err(ErroDefinicao::ItemNaoTexto));
    assert_eq!(unwrap_such_value_array(ValorDefinicao::Outro, false), Err(ErroDefinicao::TipoInvalido));
}

#[test]
fn definicao_por_extensao() {
    let defs = vec![
        ("pdf".to_string(), ValorDefinicao::Texto("9h".to_string())),
        ("iso".to_string(), lista(&[Some("60dias"), Some("2min")])),
        ("pdf".to_string(), ValorDefinicao::Texto("1h".to_string())),
        ("ruim".to_string(), ValorDefinicao::Outro),
    ];
    assert_eq!(definicao_da_extensao(&defs, "pdf", false), Ok("9h".to_string()));
    assert_eq!(definicao_da_extensao(&defs, "iso", false), Ok("60dias".to_string()));
    assert_eq!(definicao_da_extensao(&defs, "iso", true), Ok("2min".to_string()));
    assert_eq!(definicao_da_extensao(&defs, "mp3", false), Ok("20min".to_string()));
    assert_eq!(definicao_da_extensao(&defs, "ruim", false), Err(ErroDefinicao::TipoInvalido));
    assert_eq!(definicao_da_extensao(&Vec::new(), "pdf", true), Ok("20min".to_string()));
}
