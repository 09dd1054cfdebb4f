use vstd::prelude::*;
use crate::texto::{acrescenta, caracteres, texto_de};
use crate::tempo::Validade;

verus! {

/// O algarismo decimal de `d` (de 0 a 9).
pub open spec fn algarismo(d: nat) -> char {
    if d == 0 {
        '0'
    } else if d == 1 {
        '1'
    } else if d == 2 {
        '2'
    } else if d == 3 {
        '3'
    } else if d == 4 {
        '4'
    } else if d == 5 {
        '5'
    } else if d == 6 {
        '6'
    } else if d == 7 {
        '7'
    } else if d == 8 {
        '8'
    } else {
        '9'
    }
}

/// `n` escrito em base dez, sem zeros à esquerda.
pub open spec fn decimal(n: nat) -> Seq<char>
    decreases n,
{
    if n < 10 {
        seq![algarismo(n)]
    } else {
        decimal(n / 10).push(algarismo(n % 10))
    }
}

fn algarismo_exec(d: u128) -> (c: char)
    requires
        d < 10,
    ensures
        c == algarismo(d as nat),
{
    if d == 0 {
        '0'
    } else if d == 1 {
        '1'
    } else if d == 2 {
        '2'
    } else if d == 3 {
        '3'
    } else if d == 4 {
        '4'
    } else if d == 5 {
        '5'
    } else if d == 6 {
        '6'
    } else if d == 7 {
        '7'
    } else if d == 8 {
        '8'
    } else {
        '9'
    }
}

/// Os algarismos de `n` em base dez.
pub fn algarismos(n: u128) -> (r: Vec<char>)
    ensures
        r@ == decimal(n as nat),
{
    let mut m = n;
    let mut sufixo: Vec<char> = Vec::new();
    while m >= 10
        invariant
            decimal(n as nat) == decimal(m as nat) + sufixo@,
        decreases m,
    {
        let c = algarismo_exec(m % 10);
        sufixo.insert(0, c);
        let ghost antes = m;
        m = m / 10;
        assert(decimal(antes as nat) == decimal(m as nat).push(c));
        assert(decimal(m as nat).push(c) + sufixo@.drop_first() =~= decimal(m as nat) + sufixo@);
    }
    let mut r: Vec<char> = Vec::new();
    r.push(algarismo_exec(m));
    assert(decimal(m as nat) =~= r@);
    let mut i: usize = 0;
    let ghost base = r@;
    while i < sufixo.len()
        invariant
            0 <= i <= sufixo@.len(),
            r@ == base + sufixo@.take(i as int),
        decreases sufixo@.len() - i,
    {
        r.push(sufixo[i]);
        assert(sufixo@.take(i + 1) =~= sufixo@.take(i as int).push(sufixo@[i as int]));
        i = i + 1;
    }
    assert(sufixo@.take(sufixo@.len() as int) =~= sufixo@);
    r
}

/// Um literal seguido de um texto.
fn junta(prefixo: &str, s: &Vec<char>) -> (r: String)
    ensures
        r@ == prefixo@ + s@,
{
    let mut r = caracteres(prefixo);
    acrescenta(&mut r, s);
    texto_de(&r)
}

/// Uma notificação da área de trabalho: o nome do programa, o ícone, quanto tempo
/// fica à mostra e a mensagem.
pub struct Notificacao {
    pub nome: String,
    pub icone: String,
    pub duracao: Validade,
    pub mensagem: String,
}

/// Milissegundos inteiros de uma duração.
pub open spec fn milissegundos_inteiros(d: Validade) -> nat {
    (d.segundos * 1000 + d.nanos / 1_000_000) as nat
}

/// Os argumentos do programa que mostra a notificação: o prazo em milissegundos, o
/// ícone, o nome do programa e, por último, a mensagem.
pub open spec fn argumentos_spec(n: Notificacao) -> Seq<Seq<char>> {
    seq![
        "--expire-time="@ + decimal(milissegundos_inteiros(n.duracao)),
        "--icon="@ + n.icone@,
        "--app-name="@ + n.nome@,
        n.mensagem@,
    ]
}

/// As vistas de textos.
pub open spec fn vistas(v: Seq<String>) -> Seq<Seq<char>> {
    v.map_values(|s: String| s@)
}

/// Os argumentos para mostrar a notificação (ver `argumentos_spec`).
pub fn argumentos(n: &Notificacao) -> (r: Vec<String>)
    ensures
        vistas(r@) == argumentos_spec(*n),
{
    let ms: u128 = n.duracao.segundos as u128 * 1000 + (n.duracao.nanos / 1_000_000) as u128;
    let prazo = junta("--expire-time=", &algarismos(ms));
    let icone = junta("--icon=", &caracteres(n.icone.as_str()));
    let nome = junta("--app-name=", &caracteres(n.nome.as_str()));
    let mensagem = texto_de(&caracteres(n.mensagem.as_str()));
    let r = vec![prazo, icone, nome, mensagem];
    assert(vistas(r@) =~= argumentos_spec(*n));
    r
}

/// A mensagem de quantos itens foram apagados.
pub open spec fn mensagem_de_remocao(total: nat) -> Seq<char> {
    "foram deletados "@ + decimal(total) + " itens!"@
}

/// A notificação de que `total` itens foram apagados: vinte e cinco segundos à
/// mostra, com o ícone "computerjanitor".
pub fn informa_n_itens_removidos(total: usize) -> (r: Notificacao)
    ensures
        r.nome@ == "Limpa Downloads"@,
        r.icone@ == "computerjanitor"@,
        r.duracao == (Validade { segundos: 25, nanos: 0 }),
        r.mensagem@ == mensagem_de_remocao(total as nat),
{
    let mut m = caracteres("foram deletados ");
    acrescenta(&mut m, &algarismos(total as u128));
    acrescenta(&mut m, &caracteres(" itens!"));
    Notificacao {
        nome: texto_de(&caracteres("Limpa Downloads")),
        icone: texto_de(&caracteres("computerjanitor")),
        duracao: Validade::de_segundos(25),
        mensagem: texto_de(&m),
    }
}

/// A notificação de que o diretório está vazio: vinte segundos à mostra, com o ícone
/// "trashcan_empty".
pub fn avisa_de_diretorio_esta_vazio() -> (r: Notificacao)
    ensures
        r.nome@ == "LimpaDownloads"@,
        r.icone@ == "trashcan_empty"@,
        r.duracao == (Validade { segundos: 20, nanos: 0 }),
        r.mensagem@ == "o diretório está completamente vázio(I)"@,
{
    Notificacao {
        nome: texto_de(&caracteres("LimpaDownloads")),
        icone: texto_de(&caracteres("trashcan_empty")),
        duracao: Validade::de_segundos(20),
        mensagem: texto_de(&caracteres("o diretório está completamente vázio(I)")),
    }
}

/// A distância entre dois totais, contados como inteiros de 32 bits com sinal (um
/// total maior que `i32::MAX` é truncado a 32 bits).
pub open spec fn distancia_i32(a: usize, b: usize) -> int {
    let d = (a as i32) - (b as i32);
    if d < 0 {
        -d
    } else {
        d
    }
}

/// Quantos itens a fila perdeu: a distância entre o total inicial e o atual (ver
/// `distancia_i32`). A diferença tem de caber num `i32` e não ser `i32::MIN`.
pub fn itens_removidos(total_inicial: usize, total_atual: usize) -> (r: usize)
    requires
        i32::MIN < (total_inicial as i32) - (total_atual as i32) <= i32::MAX,
    ensures
        r == distancia_i32(total_inicial, total_atual),
{
    let a = total_inicial as i32;
    let b = total_atual as i32;
    let d = a - b;
    if d < 0 {
        (-d) as usize
    } else {
        d as usize
    }
}

/// A distância entre dois totais não depende da ordem, e é zero só quando são iguais
/// (totais que cabem num `i32`).
pub proof fn lei_distancia(a: usize, b: usize)
    requires
        a <= i32::MAX,
        b <= i32::MAX,
    ensures
        distancia_i32(a, b) == distancia_i32(b, a),
        distancia_i32(a, b) == 0 <==> a == b,
        distancia_i32(a, b) == (if a >= b {
            a - b
        } else {
            b - a
        }),
{
    assert((a as i32) == a) by (bit_vector)
        requires
            a <= 0x7fff_ffffusize,
    ;
    assert((b as i32) == b) by (bit_vector)
        requires
            b <= 0x7fff_ffffusize,
    ;
}

} // verus!
