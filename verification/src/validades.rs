use vstd::prelude::*;
use crate::texto::{caracteres, iguais};
use crate::tempo::Validade;

verus! {

/// Segundos de validade de um arquivo conforme a extensão: 2,7 meses para "iso",
/// 4,8 horas para "zip", 32,3 minutos para "ttf" e "deb", 9,6 horas para "pdf",
/// 45,2 minutos para "torrent", 7,2 minutos para "dat", "djvu" e "toml", 9,6 dias para
/// "epub", 3,8 horas para "tar" e "gz" e 5,9 horas para as demais. Cada produto é
/// feito em ponto flutuante de 64 bits e truncado; por isso 32,3 minutos dão 1 937 s e
/// 9,6 dias dão 829 439 s.
pub open spec fn segundos_da_extensao(e: Seq<char>) -> u64 {
    if e == "iso"@ {
        6_998_400
    } else if e == "zip"@ {
        17_280
    } else if e == "ttf"@ || e == "deb"@ {
        1_937
    } else if e == "pdf"@ {
        34_560
    } else if e == "torrent"@ {
        2_712
    } else if e == "dat"@ || e == "djvu"@ || e == "toml"@ {
        432
    } else if e == "epub"@ {
        829_439
    } else if e == "tar"@ || e == "gz"@ {
        13_680
    } else {
        21_240
    }
}

/// `s` é igual ao literal `lit`.
fn e_igual(s: &Vec<char>, lit: &str) -> (r: bool)
    ensures
        r == (s@ == lit@),
{
    let l = caracteres(lit);
    iguais(s, &l)
}

/// A validade de um arquivo conforme a extensão (ver `segundos_da_extensao`).
pub fn duracao_para_devida_extensao(extension: &str) -> (r: Validade)
    ensures
        r.segundos == segundos_da_extensao(extension@),
        r.nanos == 0,
{
    let e = caracteres(extension);
    let segundos: u64 = if e_igual(&e, "iso") {
        6_998_400
    } else if e_igual(&e, "zip") {
        17_280
    } else if e_igual(&e, "ttf") || e_igual(&e, "deb") {
        1_937
    } else if e_igual(&e, "pdf") {
        34_560
    } else if e_igual(&e, "torrent") {
        2_712
    } else if e_igual(&e, "dat") || e_igual(&e, "djvu") || e_igual(&e, "toml") {
        432
    } else if e_igual(&e, "epub") {
        829_439
    } else if e_igual(&e, "tar") || e_igual(&e, "gz") {
        13_680
    } else {
        21_240
    };
    Validade::de_segundos(segundos)
}

/// Segundos de validade de um diretório vazio: cinco minutos.
pub const DIRETORIO_VAZIO: u64 = 300;

/// Segundos de validade de um diretório com conteúdo: 13,9 dias, com o produto feito
/// em ponto flutuante de 32 bits (1 200 960 s). Nas compilações de depuração, um "dia"
/// dura 60 s e o prazo é 834 s.
pub open spec fn segundos_de_diretorio(vazio: bool, depuracao: bool) -> u64 {
    if vazio {
        DIRETORIO_VAZIO
    } else if depuracao {
        834
    } else {
        1_200_960
    }
}

/// A validade de um diretório, vazio ou não (ver `segundos_de_diretorio`).
pub fn duracao_para_diretorio(vazio: bool, depuracao: bool) -> (r: Validade)
    ensures
        r.segundos == segundos_de_diretorio(vazio, depuracao),
        r.nanos == 0,
{
    let segundos: u64 = if vazio {
        DIRETORIO_VAZIO
    } else if depuracao {
        834
    } else {
        1_200_960
    };
    Validade::de_segundos(segundos)
}

/// Uma definição de validade lida do arquivo de definições: um texto, uma lista (cujos
/// itens são textos ou outra coisa) ou um valor de outro tipo.
pub enum ValorDefinicao {
    Texto(String),
    Lista(Vec<Option<String>>),
    Outro,
}

/// Os defeitos de uma definição.
#[derive(Clone, Copy, Debug, PartialEq, Eq, Structural)]
pub enum ErroDefinicao {
    /// A lista não tem o item escolhido.
    ItemAusente,
    /// O item escolhido da lista não é texto.
    ItemNaoTexto,
    /// A definição não é texto nem lista.
    TipoInvalido,
}

/// O texto de uma definição: o próprio texto, ou o item da lista escolhido (o
/// primeiro; o segundo nas compilações de depuração).
pub open spec fn texto_da_definicao_spec(v: ValorDefinicao, depuracao: bool) -> Result<Seq<char>, ErroDefinicao> {
    match v {
        ValorDefinicao::Texto(s) => Ok(s@),
        ValorDefinicao::Lista(l) => {
            let i: int = if depuracao {
                1
            } else {
                0
            };
            if i < l@.len() {
                match l@[i] {
                    Some(s) => Ok(s@),
                    None => Err(ErroDefinicao::ItemNaoTexto),
                }
            } else {
                Err(ErroDefinicao::ItemAusente)
            }
        },
        ValorDefinicao::Outro => Err(ErroDefinicao::TipoInvalido),
    }
}

/// A vista de um resultado com texto.
pub open spec fn vista_texto(r: Result<String, ErroDefinicao>) -> Result<Seq<char>, ErroDefinicao> {
    match r {
        Ok(s) => Ok(s@),
        Err(e) => Err(e),
    }
}

/// Extrai o texto de uma definição (ver `texto_da_definicao_spec`).
pub fn unwrap_such_value_array(entrada: ValorDefinicao, depuracao: bool) -> (r: Result<String, ErroDefinicao>)
    ensures
        vista_texto(r) == texto_da_definicao_spec(entrada, depuracao),
{
    match entrada {
        ValorDefinicao::Lista(lista) => {
            let i: usize = if depuracao {
                1
            } else {
                0
            };
            if i < lista.len() {
                match &lista[i] {
                    Some(s) => Ok(s.clone()),
                    None => Err(ErroDefinicao::ItemNaoTexto),
                }
            } else {
                Err(ErroDefinicao::ItemAusente)
            }
        },
        ValorDefinicao::Texto(data) => Ok(data),
        ValorDefinicao::Outro => Err(ErroDefinicao::TipoInvalido),
    }
}

/// A validade que vale para uma extensão sem definição.
pub open spec fn validade_padrao() -> Seq<char> {
    "20min"@
}

/// `i` é a primeira posição cuja chave é `k`.
pub open spec fn primeira_chave(defs: Seq<(String, ValorDefinicao)>, k: Seq<char>, i: int) -> bool {
    &&& 0 <= i < defs.len()
    &&& defs[i].0@ == k
    &&& forall|j: int| 0 <= j < i ==> (#[trigger] defs[j]).0@ != k
}

/// O texto de validade de uma extensão: o da definição com essa chave, ou
/// `validade_padrao` quando não há.
pub open spec fn definicao_da_extensao_spec(
    defs: Seq<(String, ValorDefinicao)>,
    k: Seq<char>,
    depuracao: bool,
) -> Result<Seq<char>, ErroDefinicao> {
    if exists|i: int| primeira_chave(defs, k, i) {
        let i = choose|i: int| primeira_chave(defs, k, i);
        texto_da_definicao_spec(defs[i].1, depuracao)
    } else {
        Ok(validade_padrao())
    }
}

/// Duas posições que são ambas a primeira são a mesma.
proof fn lema_primeira_chave_unica(defs: Seq<(String, ValorDefinicao)>, k: Seq<char>, i: int, j: int)
    requires
        primeira_chave(defs, k, i),
        primeira_chave(defs, k, j),
    ensures
        i == j,
{
    if i < j {
        assert(defs[i].0@ != k);
    } else if j < i {
        assert(defs[j].0@ != k);
    }
}

/// Copia o texto de uma definição sem consumi-la.
fn texto_da_definicao(v: &ValorDefinicao, depuracao: bool) -> (r: Result<String, ErroDefinicao>)
    ensures
        vista_texto(r) == texto_da_definicao_spec(*v, depuracao),
{
    match v {
        ValorDefinicao::Lista(lista) => {
            let i: usize = if depuracao {
                1
            } else {
                0
            };
            if i < lista.len() {
                match &lista[i] {
                    Some(s) => Ok(s.clone()),
                    None => Err(ErroDefinicao::ItemNaoTexto),
                }
            } else {
                Err(ErroDefinicao::ItemAusente)
            }
        },
        ValorDefinicao::Texto(data) => Ok(data.clone()),
        ValorDefinicao::Outro => Err(ErroDefinicao::TipoInvalido),
    }
}

/// O texto de validade de uma extensão nas definições (ver
/// `definicao_da_extensao_spec`); o texto é depois lido como duração.
pub fn definicao_da_extensao(defs: &Vec<(String, ValorDefinicao)>, extension: &str, depuracao: bool) -> (r: Result<String, ErroDefinicao>)
    ensures
        vista_texto(r) == definicao_da_extensao_spec(defs@, extension@, depuracao),
{
    let e = caracteres(extension);
    let mut i: usize = 0;
    while i < defs.len()
        invariant
            0 <= i <= defs@.len(),
            e@ == extension@,
            forall|j: int| 0 <= j < i ==> (#[trigger] defs@[j]).0@ != extension@,
        decreases defs@.len() - i,
    {
        let chave = caracteres(defs[i].0.as_str());
        if iguais(&chave, &e) {
            proof {
                assert(primeira_chave(defs@, extension@, i as int));
                let k = choose|k: int| primeira_chave(defs@, extension@, k);
                lema_primeira_chave_unica(defs@, extension@, i as int, k);
            }
            return texto_da_definicao(&defs[i].1, depuracao);
        }
        i = i + 1;
    }
    proof {
        assert forall|k: int| !primeira_chave(defs@, extension@, k) by {
            if 0 <= k < defs@.len() {
                assert(defs@[k].0@ != extension@);
            }
        }
    }
    let padrao = caracteres("20min");
    Ok(crate::texto::texto_de(&padrao))
}

} // verus!
