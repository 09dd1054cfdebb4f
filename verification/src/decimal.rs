use vstd::prelude::*;
use vstd::arithmetic::div_mod::{
    lemma_div_denominator, lemma_div_multiples_vanish_fancy, lemma_fundamental_div_mod,
    lemma_div_is_ordered, lemma_multiply_divide_lt, lemma_div_by_multiple,
};
use vstd::arithmetic::mul::{lemma_mul_inequality, lemma_mul_is_distributive_add,
    lemma_mul_is_associative, lemma_mul_is_commutative, lemma_mul_strict_inequality};
use crate::texto::{digito, primeira_posicao, e_digito, encontra, lema_primeira_posicao};
use crate::tempo::NANOS_MAXIMOS;

verus! {

/// 10 elevado a `k`.
pub open spec fn potencia10(k: nat) -> nat
    decreases k,
{
    if k == 0 {
        1
    } else {
        10 * potencia10((k - 1) as nat)
    }
}

/// O valor de um dígito ASCII.
pub open spec fn valor_digito(c: char) -> nat {
    (c as int - '0' as int) as nat
}

/// O inteiro escrito pelos dígitos de `s`, em base 10.
pub open spec fn valor(s: Seq<char>) -> nat
    decreases s.len(),
{
    if s.len() == 0 {
        0
    } else {
        valor(s.drop_last()) * 10 + valor_digito(s.last())
    }
}

/// Todos os caracteres de `s` são dígitos.
pub open spec fn so_digitos(s: Seq<char>) -> bool {
    forall|i: int| 0 <= i < s.len() ==> digito(#[trigger] s[i])
}

/// O que vem antes do ponto (ou tudo, sem ponto).
pub open spec fn parte_inteira(s: Seq<char>) -> Seq<char> {
    if s.contains('.') {
        s.take(primeira_posicao(s, '.'))
    } else {
        s
    }
}

/// O que vem depois do primeiro ponto (vazio, sem ponto).
pub open spec fn parte_fracionaria(s: Seq<char>) -> Seq<char> {
    if s.contains('.') {
        s.skip(primeira_posicao(s, '.') + 1)
    } else {
        seq![]
    }
}

/// `s` escreve um número decimal sem sinal: dígitos com no máximo um ponto e ao menos
/// um dígito.
pub open spec fn literal_decimal(s: Seq<char>) -> bool {
    &&& so_digitos(parte_inteira(s))
    &&& so_digitos(parte_fracionaria(s))
    &&& parte_inteira(s).len() + parte_fracionaria(s).len() > 0
}

/// Nanossegundos de `s` vezes `peso` segundos, arredondados para baixo:
/// (inteira + fração / 10^k) * peso * 10^9.
pub open spec fn nanos_de(s: Seq<char>, peso: nat) -> nat {
    let k = parte_fracionaria(s).len();
    ((valor(parte_inteira(s)) * potencia10(k) + valor(parte_fracionaria(s))) * (peso
        * 1_000_000_000)) / potencia10(k)
}

pub(crate) proof fn lema_potencia10_positiva(k: nat)
    ensures
        potencia10(k) >= 1,
    decreases k,
{
    if k > 0 {
        lema_potencia10_positiva((k - 1) as nat);
    }
}

proof fn lema_valor_limitado(s: Seq<char>)
    requires
        so_digitos(s),
    ensures
        valor(s) < potencia10(s.len()),
    decreases s.len(),
{
    if s.len() > 0 {
        assert(so_digitos(s.drop_last())) by {
            assert forall|i: int| 0 <= i < s.drop_last().len() implies digito(
                #[trigger] s.drop_last()[i],
            ) by {
                assert(s.drop_last()[i] == s[i]);
            }
        }
        lema_valor_limitado(s.drop_last());
        assert(digito(s[s.len() - 1]));
        assert(valor_digito(s.last()) <= 9);
        let p = potencia10((s.len() - 1) as nat);
        let v = valor(s.drop_last());
        assert(v + 1 <= p);
        lemma_mul_inequality(v + 1int, p as int, 10);
        assert(v * 10 + valor_digito(s.last()) < (v + 1) * 10);
    }
}

proof fn lema_valor_cresce(s: Seq<char>, i: int)
    requires
        0 <= i <= s.len(),
    ensures
        valor(s.take(i)) <= valor(s),
    decreases s.len() - i,
{
    if i < s.len() {
        assert(s.drop_last().take(i) =~= s.take(i));
        lema_valor_cresce(s.drop_last(), i);
        assert(valor(s.drop_last()) <= valor(s)) by (nonlinear_arith)
            requires
                valor(s) == valor(s.drop_last()) * 10 + valor_digito(s.last()),
        ;
    } else {
        assert(s.take(i) =~= s);
    }
}

/// (a * m + x) / m == a + x / m
proof fn lema_desloca_divisao(a: int, x: int, m: int)
    requires
        0 <= a,
        0 <= x,
        0 < m,
    ensures
        (a * m + x) / m == a + x / m,
{
    lemma_fundamental_div_mod(x, m);
    let q = x / m;
    let r = x % m;
    assert(0 <= r < m);
    assert(a * m + x == m * (a + q) + r) by (nonlinear_arith)
        requires
            x == m * q + r,
    ;
    lemma_div_multiples_vanish_fancy(a + q, r, m);
}

/// Um passo da leitura da fração da direita para a esquerda.
proof fn lema_passo_fracao(d: int, resto: int, c: int, p: int)
    requires
        0 <= d,
        0 <= resto,
        0 < c,
        0 < p,
    ensures
        (d * c + (resto * c) / p) / 10 == ((d * p + resto) * c) / (p * 10),
{
    lema_desloca_divisao(d * c, resto * c, p);
    assert((d * p + resto) * c == d * c * p + resto * c) by (nonlinear_arith);
    lemma_div_denominator((d * p + resto) * c, p, 10);
}

proof fn lema_valor_concatena(a: Seq<char>, b: Seq<char>)
    ensures
        valor(a + b) == valor(a) * potencia10(b.len()) + valor(b),
    decreases b.len(),
{
    if b.len() == 0 {
        assert(a + b =~= a);
        assert(valor(b) == 0);
        assert(potencia10(b.len()) == 1);
    } else {
        assert((a + b).drop_last() =~= a + b.drop_last());
        assert((a + b).last() == b.last());
        lema_valor_concatena(a, b.drop_last());
        let p = potencia10((b.len() - 1) as nat);
        assert((valor(a) * p + valor(b.drop_last())) * 10 + valor_digito(b.last()) == valor(a) * (10
            * p) + (valor(b.drop_last()) * 10 + valor_digito(b.last()))) by (nonlinear_arith);
        assert(potencia10(b.len()) == 10 * p);
        assert(valor(a + b) == valor(a + b.drop_last()) * 10 + valor_digito(b.last()));
    }
}

/// Lê `s[de..ate]` (só dígitos) como inteiro, se o valor não passar de `limite`.
fn le_inteiro(s: &Vec<char>, de: usize, ate: usize, limite: u128) -> (r: Option<u128>)
    requires
        de <= ate <= s.len(),
        so_digitos(s@.subrange(de as int, ate as int)),
        limite <= NANOS_MAXIMOS,
    ensures
        r is Some <==> valor(s@.subrange(de as int, ate as int)) <= limite,
        r matches Some(v) ==> v == valor(s@.subrange(de as int, ate as int)),
{
    let ghost t = s@.subrange(de as int, ate as int);
    let mut r: u128 = 0;
    let mut i = de;
    assert(t.take(0) =~= Seq::<char>::empty());
    while i < ate
        invariant
            de <= i <= ate <= s.len(),
            t == s@.subrange(de as int, ate as int),
            so_digitos(t),
            limite <= NANOS_MAXIMOS,
            r == valor(t.take(i - de)),
            r <= limite,
        decreases ate - i,
    {
        proof {
            assert(t.take(i + 1 - de).drop_last() =~= t.take(i - de));
            assert(t.take(i + 1 - de).last() == s@[i as int]);
            lema_valor_cresce(t, i + 1 - de);
            assert(digito(t[i - de]));
        }
        let d = (s[i] as u32 - '0' as u32) as u128;
        if r > limite / 10 {
            assert(valor(t.take(i + 1 - de)) > limite);
            return None;
        }
        let novo = r * 10 + d;
        if novo > limite {
            return None;
        }
        r = novo;
        i = i + 1;
    }
    assert(t.take(ate - de) =~= t);
    Some(r)
}

/// `floor(valor(s[de..ate]) * c / 10^(ate-de))`, lida da direita para a esquerda.
fn le_fracao(s: &Vec<char>, de: usize, ate: usize, c: u128) -> (y: u128)
    requires
        de <= ate <= s.len(),
        so_digitos(s@.subrange(de as int, ate as int)),
        0 < c <= 1_000_000_000_000_000_000,
    ensures
        y == (valor(s@.subrange(de as int, ate as int)) * c) / (potencia10((ate - de) as nat) as int),
        y < c,
{
    let mut y: u128 = 0;
    let mut q = ate;
    assert(s@.subrange(ate as int, ate as int) =~= Seq::<char>::empty());
    assert(valor(Seq::<char>::empty()) == 0);
    while q > de
        invariant
            de <= q <= ate <= s.len(),
            so_digitos(s@.subrange(de as int, ate as int)),
            0 < c <= 1_000_000_000_000_000_000,
            y == (valor(s@.subrange(q as int, ate as int)) * c) / (potencia10((ate - q) as nat) as int),
            y < c,
        decreases q,
    {
        let ghost resto = s@.subrange(q as int, ate as int);
        let ghost novo = s@.subrange(q - 1, ate as int);
        proof {
            assert(novo =~= seq![s@[q - 1]] + resto);
            lema_valor_concatena(seq![s@[q - 1]], resto);
            assert(s@.subrange(de as int, ate as int)[q - 1 - de] == s@[q - 1]);
            assert(digito(s@[q - 1]));
            assert(seq![s@[q - 1]].drop_last() =~= Seq::<char>::empty());
            assert(valor(Seq::<char>::empty()) == 0);
            assert(valor(seq![s@[q - 1]]) == valor_digito(s@[q - 1]));
            assert(so_digitos(resto)) by {
                assert forall|i: int| 0 <= i < resto.len() implies digito(#[trigger] resto[i]) by {
                    assert(resto[i] == s@.subrange(de as int, ate as int)[q - de + i]);
                }
            }
            lema_valor_limitado(resto);
            lema_potencia10_positiva((ate - q) as nat);
            let p = potencia10((ate - q) as nat) as int;
            let d = valor_digito(s@[q - 1]) as int;
            lema_passo_fracao(d, valor(resto) as int, c as int, p);
            assert(potencia10((ate - q + 1) as nat) == p * 10);
            // limite: o novo valor é menor que c
            assert(valor(novo) < potencia10((ate - (q - 1)) as nat)) by {
                assert(so_digitos(novo)) by {
                    assert forall|i: int| 0 <= i < novo.len() implies digito(#[trigger] novo[i]) by {
                        assert(novo[i] == s@.subrange(de as int, ate as int)[q - 1 - de + i]);
                    }
                }
                lema_valor_limitado(novo);
            }
            assert(valor(novo) * c < (p * 10) * c) by (nonlinear_arith)
                requires valor(novo) < p * 10, c > 0;
            assert((p * 10) * c == c * (p * 10)) by (nonlinear_arith);
            lemma_multiply_divide_lt(valor(novo) * c, p * 10, c as int);
            assert(d <= 9);
            assert(d * c <= 9 * c) by (nonlinear_arith) requires d <= 9, c > 0;
        }
        let d = (s[q - 1] as u32 - '0' as u32) as u128;
        y = (d * c + y) / 10;
        q = q - 1;
    }
    y
}

/// Nanossegundos de `s` vezes `peso` segundos (ver `nanos_de`), se não passarem da
/// maior duração representável.
pub fn nanos_exec(s: &Vec<char>, peso: u64) -> (r: Option<u128>)
    requires
        literal_decimal(s@),
        1 <= peso <= 1_000_000_000,
    ensures
        r is Some <==> nanos_de(s@, peso as nat) <= NANOS_MAXIMOS,
        r matches Some(v) ==> v == nanos_de(s@, peso as nat),
{
    let c: u128 = peso as u128 * 1_000_000_000;
    let n = s.len();
    let ponto = encontra(s, '.');
    let (fim_inteira, inicio_fracao) = match ponto {
        Some(p) => {
            assert(p < n);
            (p, p + 1)
        },
        None => (s.len(), s.len()),
    };
    let ghost inteira = s@.subrange(0, fim_inteira as int);
    let ghost fracao = s@.subrange(inicio_fracao as int, s.len() as int);
    let ghost k = fracao.len();
    let ghost pk = potencia10(k) as int;
    let ghost vi = valor(inteira) as int;
    let ghost vf = valor(fracao) as int;
    proof {
        if s@.contains('.') {
            lema_primeira_posicao(s@, '.');
        }
        assert(inteira =~= parte_inteira(s@));
        assert(fracao =~= parte_fracionaria(s@));
        lema_potencia10_positiva(k);
        assert((vi * pk + vf) * (c as int) == (vi * (c as int)) * pk + vf * (c as int)) by (nonlinear_arith);
        assert(vf * (c as int) >= 0) by (nonlinear_arith) requires vf >= 0, c >= 0;
        assert(vi * (c as int) >= 0) by (nonlinear_arith) requires vi >= 0, c >= 0;
        lema_desloca_divisao(vi * (c as int), vf * (c as int), pk);
        assert(nanos_de(s@, peso as nat) == vi * (c as int) + (vf * (c as int)) / pk);
        assert((vf * (c as int)) / pk >= 0) by (nonlinear_arith)
            requires vf * (c as int) >= 0, pk > 0;
    }
    let limite = NANOS_MAXIMOS / c;
    let i = match le_inteiro(s, 0, fim_inteira, limite) {
        None => {
            proof {
                let l = limite as int;
                lemma_fundamental_div_mod(NANOS_MAXIMOS as int, c as int);
                assert(vi >= l + 1);
                assert(vi * (c as int) >= (l + 1) * (c as int)) by (nonlinear_arith)
                    requires vi >= l + 1, c > 0;
                assert((l + 1) * (c as int) == (c as int) * l + (c as int)) by (nonlinear_arith);
            }
            return None;
        },
        Some(i) => i,
    };
    proof {
        lemma_mul_inequality(vi, limite as int, c as int);
        lemma_fundamental_div_mod(NANOS_MAXIMOS as int, c as int);
        assert((limite as int) * (c as int) == (c as int) * (limite as int)) by (nonlinear_arith);
    }
    let y = le_fracao(s, inicio_fracao, s.len(), c);
    let produto = i * c;
    if produto > NANOS_MAXIMOS - y {
        return None;
    }
    Some(produto + y)
}

fn so_digitos_em(s: &Vec<char>, de: usize, ate: usize) -> (r: bool)
    requires
        de <= ate <= s.len(),
    ensures
        r == so_digitos(s@.subrange(de as int, ate as int)),
{
    let mut i = de;
    while i < ate
        invariant
            de <= i <= ate <= s.len(),
            forall|j: int| de <= j < i ==> digito(#[trigger] s@[j]),
        decreases ate - i,
    {
        if !e_digito(s[i]) {
            assert(s@.subrange(de as int, ate as int)[i - de] == s@[i as int]);
            return false;
        }
        i = i + 1;
    }
    assert forall|j: int| 0 <= j < ate - de implies digito(
        #[trigger] s@.subrange(de as int, ate as int)[j],
    ) by {
        assert(s@.subrange(de as int, ate as int)[j] == s@[de + j]);
    }
    true
}

/// Decide `literal_decimal`.
pub fn literal_decimal_exec(s: &Vec<char>) -> (r: bool)
    ensures
        r == literal_decimal(s@),
{
    let n = s.len();
    let ponto = encontra(s, '.');
    let (fim_inteira, inicio_fracao) = match ponto {
        Some(p) => {
            assert(p < n);
            (p, p + 1)
        },
        None => (n, n),
    };
    proof {
        if s@.contains('.') {
            lema_primeira_posicao(s@, '.');
        }
        assert(s@.subrange(0, fim_inteira as int) =~= parte_inteira(s@));
        assert(s@.subrange(inicio_fracao as int, n as int) =~= parte_fracionaria(s@));
    }
    if !so_digitos_em(s, 0, fim_inteira) || !so_digitos_em(s, inicio_fracao, n) {
        return false;
    }
    !(fim_inteira == 0 && inicio_fracao >= n)
}

} // verus!
