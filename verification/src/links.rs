use vstd::prelude::*;
use crate::texto::{acrescenta, caracteres, iguais, texto_de};

verus! {

/// O nome do diretório do projeto.
pub open spec fn projeto() -> Seq<char> {
    "limpa-downloads"@
}

/// Quantos componentes do caminho vão até o diretório do projeto, inclusive: o
/// caminho é encurtado pelo fim até terminar no último componente chamado
/// "limpa-downloads". `None` quando nenhum componente tem esse nome.
pub fn raiz_do_projeto(partes: &Vec<String>) -> (r: Option<usize>)
    ensures
        match r {
            Some(n) => {
                &&& 1 <= n <= partes@.len()
                &&& partes@[n - 1]@ == projeto()
                &&& forall|j: int| n <= j < partes@.len() ==> (#[trigger] partes@[j])@ != projeto()
            },
            None => forall|j: int| 0 <= j < partes@.len() ==> (#[trigger] partes@[j])@ != projeto(),
        },
{
    let alvo = caracteres("limpa-downloads");
    let mut n = partes.len();
    while n > 0
        invariant
            0 <= n <= partes@.len(),
            alvo@ == projeto(),
            forall|j: int| n <= j < partes@.len() ==> (#[trigger] partes@[j])@ != projeto(),
        decreases n,
    {
        let parte = caracteres(partes[n - 1].as_str());
        if iguais(&parte, &alvo) {
            return Some(n);
        }
        n = n - 1;
    }
    None
}

/// O executável e o nome do linque local: os da compilação de depuração, com o
/// sufixo "-debug" no nome, ou os da compilação final.
pub fn linques_locais(nome_do_linque: &str, depuracao: bool) -> (r: (String, String))
    ensures
        depuracao ==> r.0@ == "target/debug/limpa_downloads"@ && r.1@ == nome_do_linque@
            + "-debug"@,
        !depuracao ==> r.0@ == "target/release/limpa_downloads"@ && r.1@ == nome_do_linque@,
{
    if depuracao {
        let mut destino = caracteres(nome_do_linque);
        acrescenta(&mut destino, &caracteres("-debug"));
        (texto_de(&caracteres("target/debug/limpa_downloads")), texto_de(&destino))
    } else {
        (
            texto_de(&caracteres("target/release/limpa_downloads")),
            texto_de(&caracteres(nome_do_linque)),
        )
    }
}

/// O nome do linque do programa: com o sufixo "-debug" na compilação de depuração.
pub fn nome_do_linque(depuracao: bool) -> (r: String)
    ensures
        depuracao ==> r@ == "limpa-downloads-debug"@,
        !depuracao ==> r@ == "limpa-downloads"@,
{
    if depuracao {
        texto_de(&caracteres("limpa-downloads-debug"))
    } else {
        texto_de(&caracteres("limpa-downloads"))
    }
}

/// Como o programa se mostra.
#[derive(Clone, Copy, Debug, PartialEq, Eq, Structural)]
pub enum Visualizacao {
    /// Na interface semigráfica.
    Grafica,
    /// Numa nova janela de terminal, com a interface semigráfica.
    NovaJanela,
    /// No terminal, como texto.
    Texto,
}

/// Algum dos textos é `a`.
pub open spec fn contem_texto(args: Seq<String>, a: Seq<char>) -> bool {
    exists|i: int| 0 <= i < args.len() && (#[trigger] args[i])@ == a
}

/// A visualização pedida: "--ncurses" pede a semigráfica; senão, "--lanca-janela"
/// pede a nova janela; senão, texto.
pub open spec fn visualizacao_pedida(args: Seq<String>) -> Visualizacao {
    if contem_texto(args, "--ncurses"@) {
        Visualizacao::Grafica
    } else if contem_texto(args, "--lanca-janela"@) {
        Visualizacao::NovaJanela
    } else {
        Visualizacao::Texto
    }
}

/// A visualização depende só de quais opções aparecem, em qualquer posição: com
/// "--ncurses" entre os argumentos é a semigráfica; sem ela e com "--lanca-janela", a
/// nova janela; sem nenhuma das duas, texto. Por isso reordenar os argumentos não muda a
/// escolha.
pub proof fn lei_visualizacao(args: Seq<String>, outros: Seq<String>)
    ensures
        (exists|i: int| 0 <= i < args.len() && (#[trigger] args[i])@ == "--ncurses"@)
            ==> visualizacao_pedida(args) == Visualizacao::Grafica,
        !(exists|i: int| 0 <= i < args.len() && (#[trigger] args[i])@ == "--ncurses"@) && (exists|
            i: int,
        |
            0 <= i < args.len() && (#[trigger] args[i])@ == "--lanca-janela"@)
            ==> visualizacao_pedida(args) == Visualizacao::NovaJanela,
        !(exists|i: int| 0 <= i < args.len() && (#[trigger] args[i])@ == "--ncurses"@) && !(exists|
            i: int,
        |
            0 <= i < args.len() && (#[trigger] args[i])@ == "--lanca-janela"@)
            ==> visualizacao_pedida(args) == Visualizacao::Texto,
        args.to_multiset() == outros.to_multiset() ==> visualizacao_pedida(args)
            == visualizacao_pedida(outros),
{
    broadcast use vstd::seq_lib::group_to_multiset_ensures;

    if args.to_multiset() == outros.to_multiset() {
        assert forall|a: Seq<char>| contem_texto(args, a) <==> contem_texto(outros, a) by {
            if contem_texto(args, a) {
                let i = choose|i: int| 0 <= i < args.len() && (#[trigger] args[i])@ == a;
                assert(args.contains(args[i]));
                assert(args.to_multiset().count(args[i]) > 0);
                assert(outros.to_multiset().count(args[i]) > 0);
                assert(outros.contains(args[i]));
                let j = choose|j: int| 0 <= j < outros.len() && outros[j] == args[i];
                assert(outros[j]@ == a);
            }
            if contem_texto(outros, a) {
                let i = choose|i: int| 0 <= i < outros.len() && (#[trigger] outros[i])@ == a;
                assert(outros.contains(outros[i]));
                assert(outros.to_multiset().count(outros[i]) > 0);
                assert(args.to_multiset().count(outros[i]) > 0);
                assert(args.contains(outros[i]));
                let j = choose|j: int| 0 <= j < args.len() && args[j] == outros[i];
                assert(args[j]@ == a);
            }
        }
    }
}

fn contem_texto_exec(args: &Vec<String>, a: &str) -> (r: bool)
    ensures
        r == contem_texto(args@, a@),
{
    let alvo = caracteres(a);
    let mut i: usize = 0;
    while i < args.len()
        invariant
            0 <= i <= args@.len(),
            alvo@ == a@,
            forall|j: int| 0 <= j < i ==> (#[trigger] args@[j])@ != a@,
        decreases args@.len() - i,
    {
        let arg = caracteres(args[i].as_str());
        if iguais(&arg, &alvo) {
            assert(args@[i as int]@ == a@);
            return true;
        }
        i = i + 1;
    }
    false
}

/// A visualização que os argumentos da linha de comando pedem (ver
/// `visualizacao_pedida`).
pub fn tipo_de_visualizacao(args: &Vec<String>) -> (r: Visualizacao)
    ensures
        r == visualizacao_pedida(args@),
{
    if contem_texto_exec(args, "--ncurses") {
        Visualizacao::Grafica
    } else if contem_texto_exec(args, "--lanca-janela") {
        Visualizacao::NovaJanela
    } else {
        Visualizacao::Texto
    }
}

/// O executável é o da compilação final: algum componente do seu caminho é "release".
pub fn compilacao_final(partes: &Vec<String>) -> (r: bool)
    ensures
        r == contem_texto(partes@, "release"@),
{
    contem_texto_exec(partes, "release")
}

} // verus!
