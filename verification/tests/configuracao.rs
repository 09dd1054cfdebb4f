use limpa_downloads::configuracao::{
    decomposicao_em_tokens, tipos_de_arquivos_de, todas_configuracoes, transforma_em_validade,
    validade, ErroConfiguracao,
};
use std::time::Duration;

// transforma string para algo aceitável para função.
fn ajusta_string(s: &str) -> String {
    s.chars()
        .filter(|c| !c.is_ascii_whitespace())
        .filter(|c| !(c.is_ascii_punctuation() && *c != '.'))
        .collect::<String>()
}

/* converte para argumento válido. */
fn transforma_vetor(vetor: &Vec<&str>) -> Vec<String> {
    vetor.iter().map(|ss| ss.to_string()).collect::<Vec<String>>()
}

#[test]
#[allow(non_snake_case)]
fn decomposicaoTesteInicial() {
    // retirando qualquer espaço em branco.
    let amostra = ajusta_string("10hora 52min 18segundos");
    assert_eq!(
        vec!["10", "hora", "52", "min", "18", "segundos"],
        decomposicao_em_tokens(amostra)
    );
}

#[test]
#[allow(non_snake_case)]
fn validaSaidaDaDecomposicao() {
    let saidas = vec![
        vec!["10", "hora", "52", "min", "18", "segundos"],
        vec!["23", "minutos", "14", "seg"],
        vec!["59", "segundos"],
        vec!["04", "dias", "8", "h"],
    ];
    for vetor in saidas {
        assert!(validade(&transforma_vetor(&vetor)));
    }
}

#[test]
#[allow(non_snake_case)]
fn decomposicoesCasosGerais() {
    let mut entradas = vec![
        "35minutos 13segundos",
        "13dias13horas",
        "14dias 10horas 28minutos 56seg",
        "56minutos",
        "21 horas 38min",
        "18min 33 segundos",
        "12 horas 27 minutos 48 segundos",
        "14h8seg",
        "1hora 2 minutos",
        "56 min 2 seg",
    ];
    let mut saidas = vec![
        vec!["35", "minutos", "13", "segundos"],
        vec!["13", "dias", "13", "horas"],
        vec!["14", "dias", "10", "horas", "28", "minutos", "56", "seg"],
        vec!["56", "minutos"],
        vec!["21", "horas", "38", "min"],
        vec!["18", "min", "33", "segundos"],
        vec!["12", "horas", "27", "minutos", "48", "segundos"],
        vec!["14", "h", "8", "seg"],
        vec!["1", "hora", "2", "minutos"],
        vec!["56", "min", "2", "seg"],
    ];
    let decompoem: fn(String) -> Vec<String>;
    decompoem = decomposicao_em_tokens;
    for (e, s) in entradas.drain(..).zip(saidas.drain(..)) {
        let e = ajusta_string(e);
        println!("'{}' == {:?}", e, s);
        assert_eq!(decompoem(e), s);
    }
}

#[test]
#[allow(non_snake_case)]
fn decomposicaoValorDecimal() {
    let ajusta: fn(&str) -> String;
    ajusta = ajusta_string;
    let entrada = ajusta("10.38hora 52.7min 18segundos");
    let saida = decomposicao_em_tokens(entrada.clone());
    println!("'{}' #===> {:?}", entrada, saida);
    assert_eq!(vec!["10.38", "hora", "52.7", "min", "18", "segundos"], saida);
    let entrada = ajusta("12.3min 53.1seg");
    let saida = decomposicao_em_tokens(entrada.clone());
    println!("'{}' #===> {:?}", entrada, saida);
    assert_eq!(vec!["12.3", "min", "53.1", "seg"], saida);
    let entrada = ajusta("1.791mês");
    let saida = decomposicao_em_tokens(entrada.clone());
    println!("'{}' #===> {:?}", entrada, saida);
    assert_eq!(vec!["1.791", "mês"], saida);
}

#[test]
#[allow(non_snake_case)]
fn transformacaoEmValidades() {
    let mut entradas = vec![
        "35minutos 13segundos",
        "13dias13horas",
        "14dias 10horas 28minutos 56seg",
        "56minutos",
        "21 horas 38min",
        "18min 33 segundos",
        "12 horas 27 minutos 48 segundos",
        "14h8seg",
        "1hora 2 minutos",
        "56 min 2 seg",
    ];
    let mut saidas = vec![
        Duration::from_secs_f32(35.0 * 60.0 + 13.0),
        Duration::from_secs_f32(13.0 * 24.0 * 3600.0 + 13.0 * 3600.0),
        Duration::from_secs_f32(14.0 * 24.0 * 3600.0 + 10.0 * 3600.0 + 28.0 * 60.0 + 56.0),
        Duration::from_secs_f32(56.0 * 60.0),
        Duration::from_secs_f32(21.0 * 3600.0 + 38.0 * 60.0),
        Duration::from_secs_f32(18.0 * 60.0 + 33.0),
        Duration::from_secs_f32(12.0 * 3600.0 + 27.0 * 60.0 + 48.0),
        Duration::from_secs_f32(14.0 * 3600.0 + 08.0),
        Duration::from_secs_f32(1.0 * 3600.0 + 120.0),
        Duration::from_secs_f32(56.0 * 60.0 + 2.0),
    ];
    for (e, s) in entradas.drain(..).zip(saidas.drain(..)) {
        let a = decomposicao_em_tokens(ajusta_string(e));
        let v = transforma_em_validade(a.clone());
        let entrada = Duration::new(v.segundos, v.nanos);
        println!("{:?}'{:#?}' #===> {:#?}", a, entrada, s);
        assert_eq!(entrada, s);
    }
}

#[test]
fn decomposicao_separa_por_qualquer_outro_caractere() {
    assert_eq!(decomposicao_em_tokens("3 dias, 4h".to_string()), vec!["3", "dias", "4", "h"]);
    assert_eq!(decomposicao_em_tokens("-7-".to_string()), vec!["7"]);
}

#[test]
fn validade_rejeita_o_que_nao_esta_em_pares() {
    assert!(!validade(&transforma_vetor(&vec!["10"])));
    assert!(!validade(&transforma_vetor(&vec!["hora", "10"])));
    assert!(!validade(&transforma_vetor(&vec!["10", "semanas"])));
    assert!(!validade(&transforma_vetor(&vec!["", "min"])));
    assert!(!validade(&transforma_vetor(&vec!["1", "2"])));
    // as unidades aceitas vão até meses, com e sem acento
    assert!(validade(&transforma_vetor(&vec!["1", "mês"])));
    assert!(validade(&transforma_vetor(&vec!["1", "meses"])));
    assert!(validade(&transforma_vetor(&vec!["2", "d"])));
}

#[test]
fn transforma_com_decimais_e_pares() {
    // 1,5 hora = 5400 s
    let v = transforma_em_validade(transforma_vetor(&vec!["1.5", "hora"]));
    assert_eq!((v.segundos, v.nanos), (5400, 0));
    // "d" é um dia
    let v = transforma_em_validade(transforma_vetor(&vec!["2", "d"]));
    assert_eq!((v.segundos, v.nanos), (172_800, 0));
    let v = transforma_em_validade(transforma_vetor(&vec!["2", "d", "3", "min"]));
    assert_eq!((v.segundos, v.nanos), (172_980, 0));
    // cada número vai com a unidade logo depois dele, mesmo abaixo de 1
    let v = transforma_em_validade(transforma_vetor(&vec!["0.5", "hora", "10", "min"]));
    assert_eq!((v.segundos, v.nanos), (2400, 0));
    let v = transforma_em_validade(transforma_vetor(&vec!["0.5", "min", "10", "seg"]));
    assert_eq!((v.segundos, v.nanos), (40, 0));
    // fração de segundo, arredondada para baixo no nanossegundo
    let v = transforma_em_validade(transforma_vetor(&vec!["1.0000000015", "seg"]));
    assert_eq!((v.segundos, v.nanos), (1, 1));
    let v = transforma_em_validade(transforma_vetor(&vec!["1.791", "meses"]));
    assert_eq!((v.segundos, v.nanos), (4_642_272, 0));
    let v = transforma_em_validade(transforma_vetor(&vec!["1", "mês"]));
    assert_eq!((v.segundos, v.nanos), (2_592_000, 0));
    // o que não escreve um número não soma nada
    let v = transforma_em_validade(transforma_vetor(&vec!["1.2.3", "h", "5", "seg"]));
    assert_eq!((v.segundos, v.nanos), (5, 0));
}

#[test]
fn configuracoes_em_secoes() {
    let texto = "# comentário\nsolta\n[Primeira]\n  a: 1 \n\n# b\n[Segunda]\r\nx\r\n[Primeira]\nc\n"
        .to_string();
    let mut secoes = todas_configuracoes(texto);
    secoes.sort();
    assert_eq!(
        secoes,
        vec![
            ("Primeira".to_string(), vec!["c".to_string()]),
            ("Segunda".to_string(), vec!["x".to_string()]),
        ]
    );
}

#[test]
fn tipos_de_arquivos_lidos_da_secao() {
    let texto = "[Outra]\nx\n[Tipos De Arquivos]\npdf:\"2horas\"\niso:\"3 semanas\"\nzip:1h30min\n"
        .to_string();
    let tipos = tipos_de_arquivos_de(texto).unwrap();
    let esperado: Vec<(String, u64)> = vec![("pdf".to_string(), 7200), ("zip".to_string(), 5400)];
    let obtido: Vec<(String, u64)> =
        tipos.iter().map(|(n, v)| (n.clone(), v.segundos)).collect();
    assert_eq!(obtido, esperado);
}

#[test]
fn tipos_de_arquivos_erros() {
    assert_eq!(
        tipos_de_arquivos_de("[Outra]\nx\n".to_string()),
        Err(ErroConfiguracao::CabecalhoInexistente)
    );
    assert_eq!(
        tipos_de_arquivos_de("[Tipos De Arquivos]\n\n".to_string()),
        Err(ErroConfiguracao::CabecalhoSemConteudo)
    );
    assert_eq!(
        tipos_de_arquivos_de("]a[\n".to_string()),
        Err(ErroConfiguracao::CabecalhoMalFormado)
    );
    assert_eq!(
        tipos_de_arquivos_de("[Tipos De Arquivos]\npdf 2horas\n".to_string()),
        Err(ErroConfiguracao::LinhaSemSeparador)
    );
    assert_eq!(
        tipos_de_arquivos_de("[Tipos De Arquivos]\npdf:\"\"\n".to_string()),
        Err(ErroConfiguracao::ValidadeSemFichas)
    );
    assert_eq!(
        tipos_de_arquivos_de(
            "[Tipos De Arquivos]\npdf:99999999999999999999999meses\n".to_string()
        ),
        Err(ErroConfiguracao::ValidadeExcessiva)
    );
}

#[test]
fn fichas_guardam_os_caracteres_que_contam() {
    let entrada = "10h, 30min! 5.5 seg".to_string();
    let tokens = decomposicao_em_tokens(entrada.clone());
    let juntas: String = tokens.concat();
    let que_contam: String =
        entrada.chars().filter(|c| c.is_ascii_digit() || *c == '.' || c.is_alphabetic()).collect();
    assert_eq!(juntas, que_contam);
    for t in &tokens {
        let numerico = t.chars().all(|c| c.is_ascii_digit() || c == '.');
        let alfabetico = t.chars().all(|c| c.is_alphabetic());
        assert!(!t.is_empty() && (numerico || alfabetico));
    }
}

#[test]
fn validades_justapostas_se_somam() {
    let a = transforma_vetor(&vec!["1", "hora"]);
    let b = transforma_vetor(&vec!["30", "min", "15", "seg"]);
    let juntas: Vec<String> = a.iter().chain(b.iter()).cloned().collect();
    let va = transforma_em_validade(a);
    let vb = transforma_em_validade(b);
    let vj = transforma_em_validade(juntas);
    assert_eq!(vj.nanos_totais(), va.nanos_totais() + vb.nanos_totais());
    assert_eq!(vj.segundos, 5415);
}

#[test]
fn comentarios_nao_mudam_as_secoes() {
    let sem = "[A]\nx\ny\n".to_string();
    let com = "[A]\nx\n# y\n#[B]\ny\n".to_string();
    assert_eq!(todas_configuracoes(sem), todas_configuracoes(com));
}

#[test]
#[allow(non_snake_case)]
fn tiposDeArquivosFiltroVisual() {
    let conteudo = "[Tipos De Arquivos]\npdf:\"9horas 36min\"\niso:\"81dias\"\ndeb: 32 min 18 seg\n"
        .to_string();
    let saida = tipos_de_arquivos_de(conteudo).unwrap();
    for (nome, expiracao) in &saida {
        println!("{} ==> {:#?}", nome, Duration::new(expiracao.segundos, expiracao.nanos));
    }
    let nomes: Vec<&str> = saida.iter().map(|(n, _)| n.as_str()).collect();
    assert_eq!(nomes, vec!["pdf", "iso", "deb"]);
    assert_eq!(saida[2].1.segundos, 32 * 60 + 18);
}

#[test]
#[allow(non_snake_case)]
fn tiposDeArquivosSemConteudo() {
    let conteudo = "[Tipos De Arquivos]\n# nada aqui\n\n[Outra]\nx\n".to_string();
    assert_eq!(tipos_de_arquivos_de(conteudo), Err(ErroConfiguracao::CabecalhoSemConteudo));
}

#[test]
#[allow(non_snake_case)]
fn tiposDeArquivosSemCabecalho() {
    let conteudo = "pdf: 2horas\n[Outra]\nzip: 1h\n".to_string();
    assert_eq!(tipos_de_arquivos_de(conteudo), Err(ErroConfiguracao::CabecalhoInexistente));
}
