use vstd::prelude::*;
use crate::texto::{
    digito, alfabetico, e_digito, e_alfabetico, caracteres, texto_de,
    iguais, contem, encontra, primeira_posicao, lema_primeira_posicao, aparado, apara, recorte,
    sem_aspas, apara_com, espaco_branco, descartaveis_no_inicio, lei_aparado,
};
use crate::secoes::{linhas, sem_cr, sem_cr_exec, pedacos_de_linha, Secoes, como_mapa, distintas,
    vistas as vistas_de};
use crate::decimal::{
    literal_decimal, literal_decimal_exec, lema_potencia10_positiva, nanos_de, nanos_exec,
    parte_fracionaria, parte_inteira, potencia10, valor,
};
use crate::tempo::{Validade, NANOS_MAXIMOS};

verus! {

/// Caractere que compõe a parte numérica de uma validade: dígito ou ponto.
pub open spec fn numerico(c: char) -> bool {
    digito(c) || c == '.'
}

/// A que tipo de ficha um caractere pertence: 1 numérica, 2 textual, 0 nenhuma.
pub open spec fn classe(c: char) -> int {
    if numerico(c) {
        1
    } else if alfabetico(c) {
        2
    } else {
        0
    }
}

/// As fichas de `s`: cada sequência máxima de caracteres numéricos ou de caracteres
/// alfabéticos, na ordem em que aparecem; o resto só separa fichas.
pub open spec fn fichas(s: Seq<char>) -> Seq<Seq<char>>
    decreases s.len(),
{
    if s.len() == 0 {
        seq![]
    } else {
        let anteriores = fichas(s.drop_last());
        let c = s.last();
        if classe(c) == 0 {
            anteriores
        } else if s.len() >= 2 && classe(s[s.len() - 2]) == classe(c) {
            anteriores.update(anteriores.len() - 1, anteriores.last().push(c))
        } else {
            anteriores.push(seq![c])
        }
    }
}

/// Há em `s` algum caractere numérico ou alfabético.
pub open spec fn tem_ficha(s: Seq<char>) -> bool {
    exists|i: int| 0 <= i < s.len() && classe(s[i]) != 0
}

proof fn lema_fichas_nao_vazias(s: Seq<char>)
    requires
        s.len() > 0,
        classe(s.last()) != 0,
    ensures
        fichas(s).len() > 0,
    decreases s.len(),
{
    if s.len() >= 2 && classe(s[s.len() - 2]) == classe(s.last()) {
        lema_fichas_nao_vazias(s.drop_last());
    }
}

proof fn lema_fichas_de_quem_tem_ficha(s: Seq<char>)
    requires
        tem_ficha(s),
    ensures
        fichas(s).len() > 0,
    decreases s.len(),
{
    if classe(s.last()) != 0 {
        lema_fichas_nao_vazias(s);
    } else {
        let i = choose|i: int| 0 <= i < s.len() && classe(s[i]) != 0;
        assert(s.drop_last()[i] == s[i]);
        lema_fichas_de_quem_tem_ficha(s.drop_last());
    }
}

/// As fichas juntadas, uma após a outra.
pub open spec fn juntas(fs: Seq<Seq<char>>) -> Seq<char>
    decreases fs.len(),
{
    if fs.len() == 0 {
        seq![]
    } else {
        juntas(fs.drop_last()) + fs.last()
    }
}

/// Os caracteres numéricos e alfabéticos de `s`, na ordem.
pub open spec fn que_contam(s: Seq<char>) -> Seq<char>
    decreases s.len(),
{
    if s.len() == 0 {
        seq![]
    } else if classe(s.last()) != 0 {
        que_contam(s.drop_last()).push(s.last())
    } else {
        que_contam(s.drop_last())
    }
}

/// Todos os caracteres da ficha são da mesma classe, numérica ou textual.
pub open spec fn ficha_homogenea(f: Seq<char>) -> bool {
    &&& f.len() > 0
    &&& classe(f[0]) != 0
    &&& forall|j: int| 0 <= j < f.len() ==> classe(#[trigger] f[j]) == classe(f[0])
}

/// As fichas de um texto guardam, na ordem, exatamente os seus caracteres numéricos e
/// alfabéticos; cada ficha é não vazia e de uma só classe, e a última ficha termina na
/// classe do último caractere que conta.
pub proof fn lei_fichas(s: Seq<char>)
    ensures
        juntas(fichas(s)) == que_contam(s),
        forall|i: int| 0 <= i < fichas(s).len() ==> ficha_homogenea(#[trigger] fichas(s)[i]),
    decreases s.len(),
{
    if s.len() > 0 {
        let a = fichas(s.drop_last());
        let c = s.last();
        lei_fichas(s.drop_last());
        if classe(c) == 0 {
        } else if s.len() >= 2 && classe(s[s.len() - 2]) == classe(c) {
            assert(s.drop_last().last() == s[s.len() - 2]);
            lema_fichas_nao_vazias(s.drop_last());
            let nova = a.last().push(c);
            let b = a.update(a.len() - 1, nova);
            assert(b.drop_last() =~= a.drop_last());
            assert(juntas(b) == juntas(a.drop_last()) + nova);
            assert(juntas(a) == juntas(a.drop_last()) + a.last());
            assert(juntas(b) =~= juntas(a).push(c));
            lema_ultima_ficha(s.drop_last());
            assert(ficha_homogenea(nova)) by {
                assert(ficha_homogenea(a[a.len() - 1]));
                assert forall|j: int| 0 <= j < nova.len() implies classe(#[trigger] nova[j]) == classe(nova[0]) by {
                    if j < nova.len() - 1 {
                        assert(nova[j] == a.last()[j]);
                    }
                }
            }
            assert forall|i: int| 0 <= i < b.len() implies ficha_homogenea(#[trigger] b[i]) by {
                if i < b.len() - 1 {
                    assert(b[i] == a[i]);
                }
            }
        } else {
            let b = a.push(seq![c]);
            assert(b.drop_last() =~= a);
            assert(juntas(b) =~= juntas(a).push(c));
            assert forall|i: int| 0 <= i < b.len() implies ficha_homogenea(#[trigger] b[i]) by {
                if i < b.len() - 1 {
                    assert(b[i] == a[i]);
                }
            }
        }
    }
}

/// Quando o último caractere conta, a última ficha termina nele e é da sua classe.
proof fn lema_ultima_ficha(s: Seq<char>)
    requires
        s.len() > 0,
        classe(s.last()) != 0,
    ensures
        fichas(s).len() > 0,
        classe(fichas(s).last()[0]) == classe(s.last()),
    decreases s.len(),
{
    lema_fichas_nao_vazias(s);
    if s.len() >= 2 && classe(s[s.len() - 2]) == classe(s.last()) {
        assert(s.drop_last().last() == s[s.len() - 2]);
        lema_ultima_ficha(s.drop_last());
        let a = fichas(s.drop_last());
        assert(a.last().push(s.last())[0] == a.last()[0]) by {
            lema_fichas_nao_vazias(s.drop_last());
            lei_fichas(s.drop_last());
            assert(ficha_homogenea(a[a.len() - 1]));
        }
    }
}

spec fn vistas(v: Seq<Vec<char>>) -> Seq<Seq<char>> {
    v.map_values(|x: Vec<char>| x@)
}

/// Converte uma lista de sequências de caracteres numa lista de `String`.
pub fn textos_de(v: &Vec<Vec<char>>) -> (r: Vec<String>)
    ensures
        r@.map_values(|t: String| t@) == v@.map_values(|x: Vec<char>| x@),
{
    let mut r: Vec<String> = Vec::new();
    for i in 0..v.len()
        invariant
            r@.map_values(|t: String| t@) =~= v@.take(i as int).map_values(|x: Vec<char>| x@),
    {
        let ghost r_antes = r@;
        let t = texto_de(&v[i]);
        r.push(t);
        assert(r@ =~= r_antes.push(t));
        assert(r@.map_values(|t: String| t@) =~= r_antes.map_values(|t: String| t@).push(t@));
        assert(v@.take(i + 1) =~= v@.take(i as int).push(v@[i as int]));
        assert(v@.take(i + 1).map_values(|x: Vec<char>| x@) =~= v@.take(i as int).map_values(
            |x: Vec<char>| x@,
        ).push(v@[i as int]@));
    }
    assert(v@.take(v.len() as int) =~= v@);
    r
}

/// Separa a parte numérica das partes textuais de uma descrição de validade, como
/// "10hora52min" em ["10", "hora", "52", "min"]. Qualquer outro caractere só separa
/// as fichas. Exige que haja ao menos uma ficha.
pub fn decomposicao_em_tokens(s: String) -> (tokens: Vec<String>)
    requires
        tem_ficha(s@),
    ensures
        tokens@.map_values(|t: String| t@) == fichas(s@),
        tokens@.len() > 0,
{
    let cs = caracteres(s.as_str());
    let mut acc: Vec<Vec<char>> = Vec::new();
    let mut f_n: Vec<char> = Vec::new();
    let mut f_a: Vec<char> = Vec::new();
    let mut i: usize = 0;
    while i < cs.len()
        invariant
            cs@ == s@,
            0 <= i <= cs.len(),
            i > 0 && classe(cs@[i - 1]) == 1 ==> f_a@.len() == 0 && f_n@.len() > 0
                && vistas(acc@).push(f_n@) == fichas(cs@.take(i as int)),
            i > 0 && classe(cs@[i - 1]) == 2 ==> f_n@.len() == 0 && f_a@.len() > 0
                && vistas(acc@).push(f_a@) == fichas(cs@.take(i as int)),
            i == 0 || classe(cs@[i - 1]) == 0 ==> f_n@.len() == 0 && f_a@.len() == 0
                && vistas(acc@) == fichas(cs@.take(i as int)),
        decreases cs.len() - i,
    {
        let c = cs[i];
        let ghost antes = cs@.take(i as int);
        let ghost depois = cs@.take(i + 1);
        let ghost acc_antes = vistas(acc@);
        assert(depois.drop_last() =~= antes);
        assert(depois.last() == c);
        assert(i > 0 ==> depois[depois.len() - 2] == cs@[i - 1]);
        let e_num = e_digito(c) || c == '.';
        let e_alfa = e_alfabetico(c);
        if e_num {
            f_n.push(c);
        } else {
            if f_n.len() > 0 {
                acc.push(f_n);
                f_n = Vec::new();
            }
        }
        if e_alfa {
            f_a.push(c);
        } else {
            if f_a.len() > 0 {
                acc.push(f_a);
                f_a = Vec::new();
            }
        }
        proof {
            assert(vistas(acc@) =~= acc_antes || vistas(acc@) =~= acc_antes.push(acc@.last()@));
            if classe(c) == 1 {
                if i > 0 && classe(cs@[i - 1]) == 1 {
                    assert(vistas(acc@) =~= acc_antes);
                } else {
                    assert(f_n@ =~= seq![c]);
                }
            } else if classe(c) == 2 {
                if i > 0 && classe(cs@[i - 1]) == 2 {
                    assert(vistas(acc@) =~= acc_antes);
                } else {
                    assert(f_a@ =~= seq![c]);
                }
            }
        }
        i = i + 1;
    }
    assert(cs@.take(cs.len() as int) =~= cs@);
    if f_n.len() > 0 {
        acc.push(f_n);
    }
    if f_a.len() > 0 {
        acc.push(f_a);
    }
    proof {
        lema_fichas_de_quem_tem_ficha(s@);
        assert(vistas(acc@) =~= fichas(s@));
    }
    textos_de(&acc)
}

/// As vistas de uma lista de `String`.
pub open spec fn textos(v: Seq<String>) -> Seq<Seq<char>> {
    v.map_values(|t: String| t@)
}

/// Só dígitos e pontos.
pub open spec fn so_numerico(s: Seq<char>) -> bool {
    forall|i: int| 0 <= i < s.len() ==> numerico(#[trigger] s[i])
}

/// As unidades de tempo que uma validade aceita.
pub open spec fn peso_aceito(s: Seq<char>) -> bool {
    ||| s == seq!['m', 'i', 'n']
    ||| s == seq!['m', 'i', 'n', 'u', 't', 'o']
    ||| s == seq!['m', 'i', 'n', 'u', 't', 'o', 's']
    ||| s == seq!['h']
    ||| s == seq!['h', 'o', 'r', 'a', 's']
    ||| s == seq!['d', 'i', 'a']
    ||| s == seq!['d', 'i', 'a', 's']
    ||| s == seq!['d']
    ||| s == seq!['s', 'e', 'g']
    ||| s == seq!['s', 'e', 'g', 'u', 'n', 'd', 'o']
    ||| s == seq!['s', 'e', 'g', 'u', 'n', 'd', 'o', 's']
    ||| s == seq!['h', 'o', 'r', 'a']
    ||| s == seq!['m', '\u{ea}', 's']
    ||| s == seq!['m', 'e', 's', 'e', 's']
}

/// Segundos que cada unidade aceita vale (um mês são 30 dias); 0 para o que não é
/// unidade aceita.
pub open spec fn segundos_do_peso(s: Seq<char>) -> nat {
    if s == seq!['m', '\u{ea}', 's'] || s == seq!['m', 'e', 's', 'e', 's'] {
        2_592_000
    } else if s == seq!['d', 'i', 'a', 's'] || s == seq!['d', 'i', 'a'] || s == seq!['d'] {
        86_400
    } else if s == seq!['m', 'i', 'n', 'u', 't', 'o'] || s == seq!['m', 'i', 'n'] || s == seq![
        'm',
        'i',
        'n',
        'u',
        't',
        'o',
        's',
    ] {
        60
    } else if s == seq!['s', 'e', 'g'] || s == seq!['s', 'e', 'g', 'u', 'n', 'd', 'o', 's'] || s
        == seq!['s', 'e', 'g', 'u', 'n', 'd', 'o'] {
        1
    } else if s == seq!['h'] || s == seq!['h', 'o', 'r', 'a'] || s == seq!['h', 'o', 'r', 'a', 's'] {
        3600
    } else {
        0
    }
}

/// Uma decomposição válida: pares de número e unidade, com cada número não vazio e feito
/// só de dígitos e pontos, e cada unidade entre as aceitas.
pub open spec fn decomposicao_valida(d: Seq<Seq<char>>) -> bool {
    &&& d.len() % 2 == 0
    &&& forall|k: int|
        0 <= k < d.len() / 2 ==> #[trigger] d[2 * k].len() > 0 && so_numerico(d[2 * k])
            && peso_aceito(d[2 * k + 1])
}

/// Um par é uma decomposição válida exatamente quando o primeiro elemento é um número
/// não vazio (só dígitos e pontos) e o segundo é uma unidade aceita.
pub proof fn lei_par_valido(n: Seq<char>, u: Seq<char>)
    ensures
        decomposicao_valida(seq![n, u]) <==> (n.len() > 0 && (forall|i: int|
            0 <= i < n.len() ==> #[trigger] digito(n[i]) || n[i] == '.') && peso_aceito(u)),
{
    let d = seq![n, u];
    assert(d[2 * 0int] == n && d[2 * 0int + 1] == u);
}

/// Uma decomposição é válida exatamente quando cada um dos seus pares é: justapor duas
/// decomposições (a primeira com número par de elementos) dá uma válida se e só se as
/// duas são válidas.
pub proof fn lei_validade_por_pares(d1: Seq<Seq<char>>, d2: Seq<Seq<char>>)
    requires
        d1.len() % 2 == 0,
    ensures
        decomposicao_valida(d1 + d2) <==> decomposicao_valida(d1) && decomposicao_valida(d2),
{
    let d = d1 + d2;
    let m = d1.len() / 2;
    if decomposicao_valida(d) {
        assert forall|k: int| 0 <= k < d1.len() / 2 implies #[trigger] d1[2 * k].len() > 0
            && so_numerico(d1[2 * k]) && peso_aceito(d1[2 * k + 1]) by {
            assert(d[2 * k] == d1[2 * k] && d[2 * k + 1] == d1[2 * k + 1]);
        }
        assert forall|k: int| 0 <= k < d2.len() / 2 implies #[trigger] d2[2 * k].len() > 0
            && so_numerico(d2[2 * k]) && peso_aceito(d2[2 * k + 1]) by {
            assert(d[2 * (m + k)] == d2[2 * k] && d[2 * (m + k) + 1] == d2[2 * k + 1]);
        }
    }
    if decomposicao_valida(d1) && decomposicao_valida(d2) {
        assert forall|k: int| 0 <= k < d.len() / 2 implies #[trigger] d[2 * k].len() > 0
            && so_numerico(d[2 * k]) && peso_aceito(d[2 * k + 1]) by {
            if k < m {
                assert(d[2 * k] == d1[2 * k] && d[2 * k + 1] == d1[2 * k + 1]);
            } else {
                let k2 = k - m;
                assert(d[2 * k] == d2[2 * k2] && d[2 * k + 1] == d2[2 * k2 + 1]);
                assert(0 <= k2 < d2.len() / 2);
            }
        }
    }
}

/// Uma unidade não aceita em qualquer posição de unidade faz a decomposição inteira ser
/// recusada, e um número vazio também.
pub proof fn lei_unidade_recusada(d: Seq<Seq<char>>, i: int)
    requires
        0 <= i < d.len(),
        i % 2 == 1 && !peso_aceito(d[i]) || i % 2 == 0 && d[i].len() == 0,
    ensures
        !decomposicao_valida(d),
{
    if decomposicao_valida(d) {
        let k = i / 2;
        assert(0 <= k < d.len() / 2);
        assert(d[2 * k].len() > 0 && so_numerico(d[2 * k]) && peso_aceito(d[2 * k + 1]));
    }
}

fn e_so_numerico(s: &Vec<char>) -> (r: bool)
    ensures
        r == so_numerico(s@),
{
    let mut i: usize = 0;
    while i < s.len()
        invariant
            0 <= i <= s.len(),
            forall|j: int| 0 <= j < i ==> numerico(#[trigger] s@[j]),
        decreases s.len() - i,
    {
        if !(e_digito(s[i]) || s[i] == '.') {
            return false;
        }
        i = i + 1;
    }
    true
}

fn e_peso_aceito(s: &Vec<char>) -> (r: bool)
    ensures
        r == peso_aceito(s@),
{
    let p_min = vec!['m', 'i', 'n'];
    assert(p_min@ =~= seq!['m', 'i', 'n']);
    let p_minuto = vec!['m', 'i', 'n', 'u', 't', 'o'];
    assert(p_minuto@ =~= seq!['m', 'i', 'n', 'u', 't', 'o']);
    let p_minutos = vec!['m', 'i', 'n', 'u', 't', 'o', 's'];
    assert(p_minutos@ =~= seq!['m', 'i', 'n', 'u', 't', 'o', 's']);
    let p_h = vec!['h'];
    assert(p_h@ =~= seq!['h']);
    let p_horas = vec!['h', 'o', 'r', 'a', 's'];
    assert(p_horas@ =~= seq!['h', 'o', 'r', 'a', 's']);
    let p_dia = vec!['d', 'i', 'a'];
    assert(p_dia@ =~= seq!['d', 'i', 'a']);
    let p_dias = vec!['d', 'i', 'a', 's'];
    assert(p_dias@ =~= seq!['d', 'i', 'a', 's']);
    let p_d = vec!['d'];
    assert(p_d@ =~= seq!['d']);
    let p_seg = vec!['s', 'e', 'g'];
    assert(p_seg@ =~= seq!['s', 'e', 'g']);
    let p_segundo = vec!['s', 'e', 'g', 'u', 'n', 'd', 'o'];
    assert(p_segundo@ =~= seq!['s', 'e', 'g', 'u', 'n', 'd', 'o']);
    let p_segundos = vec!['s', 'e', 'g', 'u', 'n', 'd', 'o', 's'];
    assert(p_segundos@ =~= seq!['s', 'e', 'g', 'u', 'n', 'd', 'o', 's']);
    let p_hora = vec!['h', 'o', 'r', 'a'];
    assert(p_hora@ =~= seq!['h', 'o', 'r', 'a']);
    let p_me2s = vec!['m', '\u{ea}', 's'];
    assert(p_me2s@ =~= seq!['m', '\u{ea}', 's']);
    let p_meses = vec!['m', 'e', 's', 'e', 's'];
    assert(p_meses@ =~= seq!['m', 'e', 's', 'e', 's']);
    iguais(s, &p_min)
        || iguais(s, &p_minuto)
        || iguais(s, &p_minutos)
        || iguais(s, &p_h)
        || iguais(s, &p_horas)
        || iguais(s, &p_dia)
        || iguais(s, &p_dias)
        || iguais(s, &p_d)
        || iguais(s, &p_seg)
        || iguais(s, &p_segundo)
        || iguais(s, &p_segundos)
        || iguais(s, &p_hora)
        || iguais(s, &p_me2s)
        || iguais(s, &p_meses)
}

fn segundos_do_peso_exec(s: &Vec<char>) -> (r: u64)
    ensures
        r == segundos_do_peso(s@),
{
    let p_me2s = vec!['m', '\u{ea}', 's'];
    assert(p_me2s@ =~= seq!['m', '\u{ea}', 's']);
    let p_meses = vec!['m', 'e', 's', 'e', 's'];
    assert(p_meses@ =~= seq!['m', 'e', 's', 'e', 's']);
    let p_dias = vec!['d', 'i', 'a', 's'];
    assert(p_dias@ =~= seq!['d', 'i', 'a', 's']);
    let p_dia = vec!['d', 'i', 'a'];
    assert(p_dia@ =~= seq!['d', 'i', 'a']);
    let p_minuto = vec!['m', 'i', 'n', 'u', 't', 'o'];
    assert(p_minuto@ =~= seq!['m', 'i', 'n', 'u', 't', 'o']);
    let p_min = vec!['m', 'i', 'n'];
    assert(p_min@ =~= seq!['m', 'i', 'n']);
    let p_minutos = vec!['m', 'i', 'n', 'u', 't', 'o', 's'];
    assert(p_minutos@ =~= seq!['m', 'i', 'n', 'u', 't', 'o', 's']);
    let p_seg = vec!['s', 'e', 'g'];
    assert(p_seg@ =~= seq!['s', 'e', 'g']);
    let p_segundos = vec!['s', 'e', 'g', 'u', 'n', 'd', 'o', 's'];
    assert(p_segundos@ =~= seq!['s', 'e', 'g', 'u', 'n', 'd', 'o', 's']);
    let p_segundo = vec!['s', 'e', 'g', 'u', 'n', 'd', 'o'];
    assert(p_segundo@ =~= seq!['s', 'e', 'g', 'u', 'n', 'd', 'o']);
    let p_h = vec!['h'];
    assert(p_h@ =~= seq!['h']);
    let p_hora = vec!['h', 'o', 'r', 'a'];
    assert(p_hora@ =~= seq!['h', 'o', 'r', 'a']);
    let p_horas = vec!['h', 'o', 'r', 'a', 's'];
    assert(p_horas@ =~= seq!['h', 'o', 'r', 'a', 's']);
    let p_d = vec!['d'];
    assert(p_d@ =~= seq!['d']);
    if iguais(s, &p_me2s) || iguais(s, &p_meses) {
        2_592_000
    } else if iguais(s, &p_dias) || iguais(s, &p_dia) || iguais(s, &p_d) {
        86_400
    } else if iguais(s, &p_minuto) || iguais(s, &p_min) || iguais(s, &p_minutos) {
        60
    } else if iguais(s, &p_seg) || iguais(s, &p_segundos) || iguais(s, &p_segundo) {
        1
    } else if iguais(s, &p_h) || iguais(s, &p_hora) || iguais(s, &p_horas) {
        3600
    } else {
        0
    }
}

/// Confere se uma decomposição descreve uma validade: em pares, primeiro a parte
/// numérica e depois a unidade, com cada unidade entre as aceitas (até meses). Exige uma
/// decomposição não vazia.
pub fn validade(decomposicao: &Vec<String>) -> (r: bool)
    requires
        decomposicao@.len() > 0,
    ensures
        r == decomposicao_valida(textos(decomposicao@)),
{
    let ghost d = textos(decomposicao@);
    let t = decomposicao.len();
    if t % 2 != 0 {
        return false;
    }
    let mut i: usize = 0;
    while i < t - 1
        invariant
            t == decomposicao@.len(),
            d == textos(decomposicao@),
            t % 2 == 0,
            t > 0,
            i % 2 == 0,
            0 <= i <= t,
            forall|k: int|
                0 <= k < i / 2 ==> #[trigger] d[2 * k].len() > 0 && so_numerico(d[2 * k])
                    && peso_aceito(d[2 * k + 1]),
        decreases t - i,
    {
        let s1 = caracteres(decomposicao[i].as_str());
        let s2 = caracteres(decomposicao[i + 1].as_str());
        proof {
            let k = (i / 2) as int;
            assert(2 * k == i);
            assert(d[2 * k] == s1@);
            assert(d[2 * k + 1] == s2@);
        }
        if s1.len() == 0 || !e_so_numerico(&s1) || !e_peso_aceito(&s2) {
            return false;
        }
        proof {
            assert forall|k: int|
                0 <= k < (i + 2) / 2 implies #[trigger] d[2 * k].len() > 0 && so_numerico(d[2 * k])
                && peso_aceito(d[2 * k + 1]) by {
                if k == i / 2 {
                    assert(d[2 * k] == s1@);
                    assert(d[2 * k + 1] == s2@);
                }
            }
        }
        i = i + 2;
    }
    true
}

/// Nanossegundos de um par: o número vezes os segundos da unidade que vem logo depois
/// dele; zero se o número não escreve um decimal (como ".." ou "1.2.3").
pub open spec fn parcela(n: Seq<char>, u: Seq<char>) -> nat {
    if literal_decimal(n) {
        nanos_de(n, segundos_do_peso(u))
    } else {
        0
    }
}

/// A soma das parcelas dos `k` primeiros pares de `d`.
pub open spec fn nanos_dos_pares(d: Seq<Seq<char>>, k: nat) -> nat
    decreases k,
{
    if k == 0 {
        0
    } else {
        nanos_dos_pares(d, (k - 1) as nat) + parcela(d[2 * (k - 1)], d[2 * (k - 1) + 1])
    }
}

/// A duração descrita por `d`, em nanossegundos: a soma, par a par, de cada número vezes
/// a sua unidade (um último elemento sem par não conta).
pub open spec fn nanos_da_validade(d: Seq<Seq<char>>) -> nat {
    nanos_dos_pares(d, d.len() / 2)
}

proof fn lema_pares_cresce(d: Seq<Seq<char>>, a: nat, b: nat)
    requires
        a <= b,
    ensures
        nanos_dos_pares(d, a) <= nanos_dos_pares(d, b),
    decreases b,
{
    if a < b {
        lema_pares_cresce(d, a, (b - 1) as nat);
    }
}

proof fn lema_pares_prefixo(d1: Seq<Seq<char>>, d2: Seq<Seq<char>>, k: nat)
    requires
        2 * k <= d1.len(),
    ensures
        nanos_dos_pares(d1 + d2, k) == nanos_dos_pares(d1, k),
    decreases k,
{
    if k > 0 {
        lema_pares_prefixo(d1, d2, (k - 1) as nat);
        assert((d1 + d2)[2 * (k - 1)] == d1[2 * (k - 1)]);
        assert((d1 + d2)[2 * (k - 1) + 1] == d1[2 * (k - 1) + 1]);
    }
}

proof fn lema_pares_concatena(d1: Seq<Seq<char>>, d2: Seq<Seq<char>>, k: nat)
    requires
        d1.len() % 2 == 0,
        2 * k <= d2.len(),
    ensures
        nanos_dos_pares(d1 + d2, d1.len() / 2 + k) == nanos_dos_pares(d1, d1.len() / 2)
            + nanos_dos_pares(d2, k),
    decreases k,
{
    if k == 0 {
        lema_pares_prefixo(d1, d2, d1.len() / 2);
    } else {
        lema_pares_concatena(d1, d2, (k - 1) as nat);
        let m = d1.len() / 2 + k;
        assert(2 * (m - 1) == d1.len() + 2 * (k - 1));
        assert((d1 + d2)[2 * (m - 1)] == d2[2 * (k - 1)]);
        assert((d1 + d2)[2 * (m - 1) + 1] == d2[2 * (k - 1) + 1]);
    }
}

/// Justapor duas descrições de validade soma as durações, desde que a primeira tenha
/// um número par de elementos (senão os pares da segunda se deslocam).
pub proof fn lei_validade_aditiva(d1: Seq<Seq<char>>, d2: Seq<Seq<char>>)
    requires
        d1.len() % 2 == 0,
    ensures
        nanos_da_validade(d1 + d2) == nanos_da_validade(d1) + nanos_da_validade(d2),
{
    assert((d1 + d2).len() / 2 == d1.len() / 2 + d2.len() / 2);
    lema_pares_concatena(d1, d2, d2.len() / 2);
}

/// Cada unidade aceita pesa a sua duração real: um número `n` seguido de "d", "dia" ou
/// "dias" dura `n` dias (86 400 s); de "h", "hora" ou "horas", `n` horas (3 600 s); de
/// "min", "minuto" ou "minutos", `n` minutos (60 s); de "seg", "segundo" ou "segundos",
/// `n` segundos; de "mês" ou "meses", `n` meses de 30 dias (2 592 000 s).
pub proof fn lei_pesos_das_unidades(n: Seq<char>)
    requires
        literal_decimal(n),
    ensures
        nanos_da_validade(seq![n, "d"@]) == nanos_de(n, 86_400),
        nanos_da_validade(seq![n, "dia"@]) == nanos_de(n, 86_400),
        nanos_da_validade(seq![n, "dias"@]) == nanos_de(n, 86_400),
        nanos_da_validade(seq![n, "h"@]) == nanos_de(n, 3_600),
        nanos_da_validade(seq![n, "hora"@]) == nanos_de(n, 3_600),
        nanos_da_validade(seq![n, "horas"@]) == nanos_de(n, 3_600),
        nanos_da_validade(seq![n, "min"@]) == nanos_de(n, 60),
        nanos_da_validade(seq![n, "minuto"@]) == nanos_de(n, 60),
        nanos_da_validade(seq![n, "minutos"@]) == nanos_de(n, 60),
        nanos_da_validade(seq![n, "seg"@]) == nanos_de(n, 1),
        nanos_da_validade(seq![n, "segundo"@]) == nanos_de(n, 1),
        nanos_da_validade(seq![n, "segundos"@]) == nanos_de(n, 1),
        nanos_da_validade(seq![n, "mês"@]) == nanos_de(n, 2_592_000),
        nanos_da_validade(seq![n, "meses"@]) == nanos_de(n, 2_592_000),
{
    reveal_strlit("d");
    reveal_strlit("dia");
    reveal_strlit("dias");
    reveal_strlit("h");
    reveal_strlit("hora");
    reveal_strlit("horas");
    reveal_strlit("min");
    reveal_strlit("minuto");
    reveal_strlit("minutos");
    reveal_strlit("seg");
    reveal_strlit("segundo");
    reveal_strlit("segundos");
    reveal_strlit("mês");
    reveal_strlit("meses");
    assert forall|u: Seq<char>| nanos_da_validade(#[trigger] seq![n, u]) == parcela(n, u) by {
        let d = seq![n, u];
        assert(nanos_dos_pares(d, 0) == 0);
        assert(d[0] == n && d[1] == u);
    }
    assert("d"@ =~= seq!['d']);
    assert("dia"@ =~= seq!['d', 'i', 'a']);
    assert("dias"@ =~= seq!['d', 'i', 'a', 's']);
    assert("h"@ =~= seq!['h']);
    assert(seq!['h'] != seq!['d']) by {
        assert(seq!['h'][0] != seq!['d'][0]);
    }
    assert("hora"@ =~= seq!['h', 'o', 'r', 'a']);
    assert("horas"@ =~= seq!['h', 'o', 'r', 'a', 's']);
    assert("min"@ =~= seq!['m', 'i', 'n']);
    assert("minuto"@ =~= seq!['m', 'i', 'n', 'u', 't', 'o']);
    assert("minutos"@ =~= seq!['m', 'i', 'n', 'u', 't', 'o', 's']);
    assert("seg"@ =~= seq!['s', 'e', 'g']);
    assert("segundo"@ =~= seq!['s', 'e', 'g', 'u', 'n', 'd', 'o']);
    assert("segundos"@ =~= seq!['s', 'e', 'g', 'u', 'n', 'd', 'o', 's']);
    assert("mês"@ =~= seq!['m', '\u{ea}', 's']);
    assert("meses"@ =~= seq!['m', 'e', 's', 'e', 's']);
}

/// Um número inteiro (só dígitos) vezes uma unidade de `w` segundos dura exatamente
/// `n * w` segundos.
pub proof fn lei_inteiro_vezes_unidade(n: Seq<char>, w: nat)
    requires
        n.len() > 0,
        forall|i: int| 0 <= i < n.len() ==> digito(#[trigger] n[i]),
    ensures
        literal_decimal(n),
        nanos_de(n, w) == valor(n) * w * 1_000_000_000,
{
    assert(!n.contains('.')) by {
        if n.contains('.') {
            let i = choose|i: int| 0 <= i < n.len() && n[i] == '.';
            assert(digito(n[i]));
        }
    }
    assert(parte_inteira(n) == n);
    assert(parte_fracionaria(n) =~= Seq::<char>::empty());
    assert(valor(Seq::<char>::empty()) == 0);
    assert(potencia10(0) == 1);
    let v = valor(n);
    assert((v * 1 + 0) * (w * 1_000_000_000) / 1 == v * w * 1_000_000_000) by (nonlinear_arith);
}

/// A duração descrita por `array` em nanossegundos, se não passar da maior duração
/// representável.
pub fn nanos_da_validade_exec(array: &Vec<String>) -> (r: Option<u128>)
    ensures
        r is Some <==> nanos_da_validade(textos(array@)) <= NANOS_MAXIMOS,
        r matches Some(n) ==> n == nanos_da_validade(textos(array@)),
{
    let ghost d = textos(array@);
    let pares = array.len() / 2;
    let mut total: u128 = 0;
    let mut k: usize = 0;
    while k < pares
        invariant
            d == textos(array@),
            pares == d.len() / 2,
            0 <= k <= pares,
            total == nanos_dos_pares(d, k as nat),
            total <= NANOS_MAXIMOS,
        decreases pares - k,
    {
        assert(2 * k + 1 < array.len());
        let n = caracteres(array[2 * k].as_str());
        let u = caracteres(array[2 * k + 1].as_str());
        assert(d[2 * k as int] == n@);
        assert(d[2 * k + 1] == u@);
        proof {
            lema_pares_cresce(d, (k + 1) as nat, pares as nat);
        }
        let w = segundos_do_peso_exec(&u);
        if w > 0 && literal_decimal_exec(&n) {
            match nanos_exec(&n, w) {
                None => {
                    return None;
                },
                Some(p) => {
                    if p > NANOS_MAXIMOS - total {
                        return None;
                    }
                    total = total + p;
                },
            }
        } else {
            proof {
                if literal_decimal(n@) {
                    assert(nanos_de(n@, 0) == 0) by {
                        let k2 = parte_fracionaria(n@).len();
                        lema_potencia10_positiva(k2);
                        let x = valor(parte_inteira(n@)) * potencia10(k2) + valor(parte_fracionaria(n@));
                        let pk = potencia10(k2);
                        assert(x * (0 * 1_000_000_000) == 0) by (nonlinear_arith);
                        assert(0int / (pk as int) == 0) by (nonlinear_arith) requires pk >= 1;
                    }
                }
            }
        }
        k = k + 1;
    }
    Some(total)
}

/// Converte uma decomposição válida na duração que ela descreve: cada número é
/// multiplicado pela unidade que vem logo depois dele e os produtos são somados, em
/// aritmética decimal exata, arredondada para baixo no nanossegundo.
pub fn transforma_em_validade(array: Vec<String>) -> (r: Validade)
    requires
        decomposicao_valida(textos(array@)),
        nanos_da_validade(textos(array@)) <= NANOS_MAXIMOS,
    ensures
        r.bem_formada(),
        r.em_nanos() == nanos_da_validade(textos(array@)),
{
    let n = nanos_da_validade_exec(&array).unwrap();
    Validade::de_nanos(n)
}

/// A linha abre uma seção: traz "[" e "]".
pub open spec fn e_cabecalho(l: Seq<char>) -> bool {
    l.contains('[') && l.contains(']')
}

/// O nome entre o primeiro "[" e o primeiro "]".
pub open spec fn cabecalho_de(l: Seq<char>) -> Seq<char> {
    l.subrange(primeira_posicao(l, '[') + 1, primeira_posicao(l, ']'))
}

/// Uma linha de cabeçalho (fora de comentário) tem o primeiro "[" antes do primeiro "]".
pub open spec fn linha_bem_formada(l: Seq<char>) -> bool {
    !l.contains('#') && e_cabecalho(l) ==> primeira_posicao(l, '[') < primeira_posicao(l, ']')
}

/// Todo cabeçalho do texto é bem formado.
pub open spec fn cabecalhos_bem_formados(conteudo: Seq<char>) -> bool {
    forall|i: int| 0 <= i < linhas(conteudo).len() ==> linha_bem_formada(#[trigger] linhas(conteudo)[i])
}

/// Estado da leitura: as seções até aqui e a seção corrente (vazia antes da primeira).
pub type EstadoLeitura = (Map<Seq<char>, Seq<Seq<char>>>, Seq<char>);

/// Uma linha lida: comentários ("#") são ignorados; um cabeçalho abre a seção do seu
/// nome (vazia, mesmo se já existia) e passa a ser a corrente; outra linha, aparada, vai
/// para a seção corrente, se houver uma de nome não vazio e a linha não ficar vazia.
pub open spec fn le_linha(e: EstadoLeitura, l: Seq<char>) -> EstadoLeitura {
    if l.contains('#') {
        e
    } else if e_cabecalho(l) {
        (e.0.insert(cabecalho_de(l), seq![]), cabecalho_de(l))
    } else if e.1.len() == 0 || aparado(l).len() == 0 {
        e
    } else {
        (e.0.insert(e.1, e.0[e.1].push(aparado(l))), e.1)
    }
}

/// O estado depois de ler as linhas `ls`.
pub open spec fn le_linhas(ls: Seq<Seq<char>>) -> EstadoLeitura
    decreases ls.len(),
{
    if ls.len() == 0 {
        (Map::empty(), seq![])
    } else {
        le_linha(le_linhas(ls.drop_last()), ls.last())
    }
}

/// Uma linha de comentário (com "#"), onde quer que esteja, não muda a leitura; e uma
/// linha de cabeçalho reabre a sua seção vazia, descartando o que ela tinha.
pub proof fn lei_leitura(ls1: Seq<Seq<char>>, c: Seq<char>, ls2: Seq<Seq<char>>)
    ensures
        c.contains('#') ==> le_linhas(ls1 + seq![c] + ls2) == le_linhas(ls1 + ls2),
        !c.contains('#') && e_cabecalho(c) ==> le_linhas(ls1.push(c)).0[cabecalho_de(c)]
            == Seq::<Seq<char>>::empty() && le_linhas(ls1.push(c)).1 == cabecalho_de(c),
    decreases ls2.len(),
{
    if c.contains('#') {
        if ls2.len() == 0 {
            assert(ls1 + seq![c] + ls2 =~= ls1.push(c));
            assert(ls1.push(c).drop_last() =~= ls1);
            assert(ls1 + ls2 =~= ls1);
        } else {
            lei_leitura(ls1, c, ls2.drop_last());
            assert((ls1 + seq![c] + ls2).drop_last() =~= ls1 + seq![c] + ls2.drop_last());
            assert((ls1 + ls2).drop_last() =~= ls1 + ls2.drop_last());
            assert((ls1 + seq![c] + ls2).last() == ls2.last());
            assert((ls1 + ls2).last() == ls2.last());
        }
    }
    assert(ls1.push(c).drop_last() =~= ls1);
}

/// Uma linha guardada numa seção: não vazia e sem espaço em branco nas pontas.
pub open spec fn sem_brancos_nas_pontas(x: Seq<char>) -> bool {
    &&& x.len() > 0
    &&& !espaco_branco(x[0])
    &&& !espaco_branco(x[x.len() - 1])
}

/// `x` é uma das linhas de `ls` aparada, e um trecho contíguo dela.
pub open spec fn vem_de_uma_linha(x: Seq<char>, ls: Seq<Seq<char>>) -> bool {
    exists|i: int, a: int|
        0 <= i < ls.len() && 0 <= a && a + x.len() <= ls[i].len() && #[trigger] ls[i].subrange(
            a,
            a + x.len(),
        ) == x && x == aparado(ls[i])
}

/// Toda linha das seções de `m` está aparada e vem de uma linha de `ls`.
pub open spec fn secoes_aparadas(m: Map<Seq<char>, Seq<Seq<char>>>, ls: Seq<Seq<char>>) -> bool {
    forall|k: Seq<char>, j: int|
        m.contains_key(k) && 0 <= j < m[k].len() ==> sem_brancos_nas_pontas(#[trigger] m[k][j])
            && vem_de_uma_linha(m[k][j], ls)
}

proof fn lema_vem_estende(x: Seq<char>, ls: Seq<Seq<char>>, l: Seq<char>)
    requires
        vem_de_uma_linha(x, ls),
    ensures
        vem_de_uma_linha(x, ls.push(l)),
{
    let (i, a) = choose|i: int, a: int|
        0 <= i < ls.len() && 0 <= a && a + x.len() <= ls[i].len() && #[trigger] ls[i].subrange(
            a,
            a + x.len(),
        ) == x && x == aparado(ls[i]);
    assert(ls.push(l)[i] == ls[i]);
    assert(ls.push(l)[i].subrange(a, a + x.len()) == x);
}

/// A leitura só guarda linhas aparadas, tiradas das linhas lidas, e a seção corrente,
/// quando tem nome, é uma das seções.
proof fn lema_linhas_aparadas(ls: Seq<Seq<char>>)
    ensures
        secoes_aparadas(le_linhas(ls).0, ls),
        le_linhas(ls).1.len() > 0 ==> le_linhas(ls).0.contains_key(le_linhas(ls).1),
    decreases ls.len(),
{
    if ls.len() > 0 {
        let ant = ls.drop_last();
        let l = ls.last();
        lema_linhas_aparadas(ant);
        assert(ant.push(l) =~= ls);
        let e = le_linhas(ant);
        let m = le_linhas(ls).0;
        assert forall|k: Seq<char>, j: int|
            m.contains_key(k) && 0 <= j < m[k].len() implies sem_brancos_nas_pontas(#[trigger] m[k][j])
            && vem_de_uma_linha(m[k][j], ls) by {
            if l.contains('#') || (!e_cabecalho(l) && (e.1.len() == 0 || aparado(l).len() == 0)) {
                assert(m == e.0);
                lema_vem_estende(m[k][j], ant, l);
            } else if e_cabecalho(l) {
                if k != cabecalho_de(l) {
                    assert(m[k] == e.0[k]);
                    lema_vem_estende(m[k][j], ant, l);
                }
            } else {
                if k != e.1 || j < e.0[e.1].len() {
                    assert(m[k][j] == e.0[k][j]);
                    lema_vem_estende(m[k][j], ant, l);
                } else {
                    let x = aparado(l);
                    assert(m[k][j] == x);
                    lei_aparado(l);
                    let a = descartaveis_no_inicio(l, false) as int;
                    assert(ls[ls.len() - 1] == l);
                    assert(ls[ls.len() - 1].subrange(a, a + x.len()) == x);
                }
            }
        }
    }
}

/// As linhas que a leitura guarda nas seções estão aparadas: nenhuma é vazia nem começa
/// ou termina com espaço em branco, e cada uma é uma linha do texto, aparada (um trecho
/// contíguo dela).
pub proof fn lei_secoes_aparadas(conteudo: Seq<char>)
    ensures
        secoes_aparadas(configuracoes(conteudo), linhas(conteudo)),
{
    lema_linhas_aparadas(linhas(conteudo));
}

/// As seções de um texto de configuração.
pub open spec fn configuracoes(conteudo: Seq<char>) -> Map<Seq<char>, Seq<Seq<char>>> {
    le_linhas(linhas(conteudo)).0
}

/// As chaves de uma lista de seções.
pub open spec fn chaves_de(r: Seq<(String, Vec<String>)>) -> Seq<Seq<char>> {
    r.map_values(|p: (String, Vec<String>)| p.0@)
}

/// A lista de seções como dicionário.
pub open spec fn mapa_de(r: Seq<(String, Vec<String>)>) -> Map<Seq<char>, Seq<Seq<char>>> {
    como_mapa(chaves_de(r), r.map_values(|p: (String, Vec<String>)| textos(p.1@)))
}

/// Decide `linha_bem_formada`.
fn linha_bem_formada_exec(l: &Vec<char>) -> (r: bool)
    ensures
        r == linha_bem_formada(l@),
{
    if contem(l, '#') {
        return true;
    }
    match (encontra(l, '['), encontra(l, ']')) {
        (Some(a), Some(f)) => a < f,
        _ => true,
    }
}

fn secoes_como_lista(s: &Secoes) -> (r: Vec<(String, Vec<String>)>)
    requires
        s.bem_formada(),
    ensures
        distintas(chaves_de(r@)),
        mapa_de(r@) == s.mapa(),
{
    let mut r: Vec<(String, Vec<String>)> = Vec::new();
    let mut i: usize = 0;
    while i < s.chaves.len()
        invariant
            s.bem_formada(),
            0 <= i <= s.chaves@.len(),
            r@.len() == i,
            forall|j: int| 0 <= j < i ==> (#[trigger] r@[j]).0@ == s.chaves@[j]@ && textos(r@[j].1@)
                == vistas_de(s.valores@[j]@),
        decreases s.chaves.len() - i,
    {
        let k = texto_de(&s.chaves[i]);
        let v = textos_de(&s.valores[i]);
        r.push((k, v));
        i = i + 1;
    }
    assert(chaves_de(r@) =~= vistas_de(s.chaves@));
    assert(r@.map_values(|p: (String, Vec<String>)| textos(p.1@)) =~= s.valores@.map_values(
        |v: Vec<Vec<char>>| vistas_de(v@),
    ));
    r
}

/// Lê as seções de um texto de configuração bem formado.
fn le_secoes(conteudo: &String) -> (r: Secoes)
    requires
        cabecalhos_bem_formados(conteudo@),
    ensures
        r.bem_formada(),
        r.mapa() == configuracoes(conteudo@),
{
    let cs = caracteres(conteudo.as_str());
    let pedacos = pedacos_de_linha(&cs);
    let ghost ls = linhas(conteudo@);
    assert(ls =~= vistas_de(pedacos@).map_values(|l: Seq<char>| sem_cr(l)));
    let mut mapa = Secoes::nova();
    let mut chave: Vec<char> = Vec::new();
    let mut i: usize = 0;
    assert(ls.take(0) =~= Seq::<Seq<char>>::empty());
    while i < pedacos.len()
        invariant
            ls == linhas(conteudo@),
            ls.len() == pedacos@.len(),
            forall|j: int| 0 <= j < ls.len() ==> #[trigger] ls[j] == sem_cr(pedacos@[j]@),
            cabecalhos_bem_formados(conteudo@),
            0 <= i <= pedacos@.len(),
            mapa.bem_formada(),
            (mapa.mapa(), chave@) == le_linhas(ls.take(i as int)),
            chave@.len() > 0 ==> mapa.mapa().contains_key(chave@),
        decreases pedacos.len() - i,
    {
        let l = sem_cr_exec(&pedacos[i]);
        proof {
            assert(ls.take(i + 1).drop_last() =~= ls.take(i as int));
            assert(ls.take(i + 1).last() == l@);
            assert(linha_bem_formada(ls[i as int]));
        }
        if contem(&l, '#') {
        } else if contem(&l, '[') && contem(&l, ']') {
            let a = encontra(&l, '[').unwrap();
            let f = encontra(&l, ']').unwrap();
            let nome = recorte(&l, a + 1, f);
            let nome2 = recorte(&l, a + 1, f);
            mapa.abre(nome);
            chave = nome2;
        } else if chave.len() > 0 {
            let linha = apara(&l);
            if linha.len() > 0 {
                mapa.acrescenta(&chave, linha);
            }
        }
        i = i + 1;
    }
    assert(ls.take(pedacos.len() as int) =~= ls);
    mapa
}

/// Separa um texto de configuração em seções: cada cabeçalho "[nome]" com as linhas
/// (aparadas, não vazias) que vêm depois dele; linhas com "#" são ignoradas, assim
/// como as que vêm antes do primeiro cabeçalho. Um cabeçalho repetido recomeça vazio.
pub fn todas_configuracoes(conteudo: String) -> (r: Vec<(String, Vec<String>)>)
    requires
        cabecalhos_bem_formados(conteudo@),
    ensures
        distintas(chaves_de(r@)),
        mapa_de(r@) == configuracoes(conteudo@),
{
    let secoes = le_secoes(&conteudo);
    secoes_como_lista(&secoes)
}

/// Decide `cabecalhos_bem_formados`.
pub fn cabecalhos_bem_formados_exec(conteudo: &String) -> (r: bool)
    ensures
        r == cabecalhos_bem_formados(conteudo@),
{
    let cs = caracteres(conteudo.as_str());
    let pedacos = pedacos_de_linha(&cs);
    let ghost ls = linhas(conteudo@);
    assert(ls =~= vistas_de(pedacos@).map_values(|l: Seq<char>| sem_cr(l)));
    let mut i: usize = 0;
    while i < pedacos.len()
        invariant
            ls == linhas(conteudo@),
            ls.len() == pedacos@.len(),
            forall|j: int| 0 <= j < ls.len() ==> #[trigger] ls[j] == sem_cr(pedacos@[j]@),
            0 <= i <= pedacos@.len(),
            forall|j: int| 0 <= j < i ==> linha_bem_formada(#[trigger] ls[j]),
        decreases pedacos.len() - i,
    {
        let l = sem_cr_exec(&pedacos[i]);
        if !linha_bem_formada_exec(&l) {
            assert(ls[i as int] == l@);
            return false;
        }
        i = i + 1;
    }
    true
}

/// Por que um texto de configuração não dá as validades dos tipos de arquivo.
#[derive(Clone, Copy, Debug, PartialEq, Eq, Structural)]
pub enum ErroConfiguracao {
    /// Uma linha de cabeçalho fecha o colchete antes de abri-lo.
    CabecalhoMalFormado,
    /// Não há a seção "Tipos De Arquivos".
    CabecalhoInexistente,
    /// A seção "Tipos De Arquivos" está vazia.
    CabecalhoSemConteudo,
    /// Uma linha da seção não tem ":".
    LinhaSemSeparador,
    /// A validade de uma linha não tem número nem letra.
    ValidadeSemFichas,
    /// A validade de uma linha passa da maior duração representável.
    ValidadeExcessiva,
}

/// O nome do tipo, antes do primeiro ":".
pub open spec fn nome_da_linha(l: Seq<char>) -> Seq<char> {
    l.take(primeira_posicao(l, ':'))
}

/// A validade escrita depois do primeiro ":", sem aspas nas pontas.
pub open spec fn resto_da_linha(l: Seq<char>) -> Seq<char> {
    sem_aspas(l.skip(primeira_posicao(l, ':') + 1))
}

/// Lê as linhas da seção de tipos, na ordem: cada uma dá um nome e uma validade em
/// nanossegundos; uma validade que não é uma decomposição válida é pulada.
pub open spec fn tipos_das_linhas(ls: Seq<Seq<char>>) -> Result<Seq<(Seq<char>, nat)>, ErroConfiguracao>
    decreases ls.len(),
{
    if ls.len() == 0 {
        Ok(seq![])
    } else {
        match tipos_das_linhas(ls.drop_last()) {
            Err(e) => Err(e),
            Ok(acc) => {
                let l = ls.last();
                if !l.contains(':') {
                    Err(ErroConfiguracao::LinhaSemSeparador)
                } else if !tem_ficha(resto_da_linha(l)) {
                    Err(ErroConfiguracao::ValidadeSemFichas)
                } else if !decomposicao_valida(fichas(resto_da_linha(l))) {
                    Ok(acc)
                } else if nanos_da_validade(fichas(resto_da_linha(l))) > NANOS_MAXIMOS {
                    Err(ErroConfiguracao::ValidadeExcessiva)
                } else {
                    Ok(acc.push((nome_da_linha(l), nanos_da_validade(fichas(resto_da_linha(l))))))
                }
            },
        }
    }
}

proof fn lema_erro_persiste(ls: Seq<Seq<char>>, k: int)
    requires
        0 <= k <= ls.len(),
        tipos_das_linhas(ls.take(k)) is Err,
    ensures
        tipos_das_linhas(ls) == tipos_das_linhas(ls.take(k)),
    decreases ls.len() - k,
{
    if k < ls.len() {
        assert(ls.drop_last().take(k) =~= ls.take(k));
        lema_erro_persiste(ls.drop_last(), k);
    } else {
        assert(ls.take(k) =~= ls);
    }
}

/// O nome da seção com as validades dos tipos de arquivo.
pub open spec fn secao_de_tipos() -> Seq<char> {
    "Tipos De Arquivos"@
}

/// O que um texto de configuração dá: as validades por tipo de arquivo, ou o erro.
pub open spec fn tipos_de_arquivos_spec(conteudo: Seq<char>) -> Result<Seq<(Seq<char>, nat)>, ErroConfiguracao> {
    if !cabecalhos_bem_formados(conteudo) {
        Err(ErroConfiguracao::CabecalhoMalFormado)
    } else if !configuracoes(conteudo).contains_key(secao_de_tipos()) {
        Err(ErroConfiguracao::CabecalhoInexistente)
    } else if configuracoes(conteudo)[secao_de_tipos()].len() == 0 {
        Err(ErroConfiguracao::CabecalhoSemConteudo)
    } else {
        tipos_das_linhas(configuracoes(conteudo)[secao_de_tipos()])
    }
}

/// Os pares de nome e validade correspondem aos da especificação.
pub open spec fn tipos_conferem(v: Seq<(String, Validade)>, e: Seq<(Seq<char>, nat)>) -> bool {
    &&& v.len() == e.len()
    &&& forall|i: int|
        0 <= i < v.len() ==> (#[trigger] v[i]).0@ == e[i].0 && v[i].1.bem_formada()
            && v[i].1.em_nanos() == e[i].1
}

/// As validades por tipo de arquivo que um texto de configuração define na seção
/// "Tipos De Arquivos": cada linha "nome:validade" dá o nome e a duração; linhas cuja
/// validade não é válida são puladas. Os defeitos do texto são devolvidos como erro.
pub fn tipos_de_arquivos_de(conteudo: String) -> (r: Result<Vec<(String, Validade)>, ErroConfiguracao>)
    ensures
        match (r, tipos_de_arquivos_spec(conteudo@)) {
            (Ok(v), Ok(e)) => tipos_conferem(v@, e),
            (Err(a), Err(b)) => a == b,
            _ => false,
        },
{
    if !cabecalhos_bem_formados_exec(&conteudo) {
        return Err(ErroConfiguracao::CabecalhoMalFormado);
    }
    let mapa = le_secoes(&conteudo);
    let chave = caracteres("Tipos De Arquivos");
    let indice = match mapa.procura(&chave) {
        None => {
            return Err(ErroConfiguracao::CabecalhoInexistente);
        },
        Some(i) => i,
    };
    let ghost ls = configuracoes(conteudo@)[secao_de_tipos()];
    proof {
        crate::secoes::lema_indice_de(vistas_de(mapa.chaves@), indice as int);
        assert(vistas_de(mapa.chaves@)[indice as int] == chave@);
        assert(ls == vistas_de(mapa.valores@[indice as int]@));
    }
    let linhas_tipos = &mapa.valores[indice];
    if linhas_tipos.len() == 0 {
        return Err(ErroConfiguracao::CabecalhoSemConteudo);
    }
    let mut validades: Vec<(String, Validade)> = Vec::new();
    let mut i: usize = 0;
    assert(ls.take(0) =~= Seq::<Seq<char>>::empty());
    while i < linhas_tipos.len()
        invariant
            ls == vistas_de(linhas_tipos@),
            cabecalhos_bem_formados(conteudo@),
            configuracoes(conteudo@).contains_key(secao_de_tipos()),
            ls == configuracoes(conteudo@)[secao_de_tipos()],
            ls.len() > 0,
            0 <= i <= ls.len(),
            tipos_das_linhas(ls.take(i as int)) matches Ok(e) && tipos_conferem(validades@, e),
        decreases ls.len() - i,
    {
        let linha = &linhas_tipos[i];
        proof {
            assert(ls.take(i + 1).drop_last() =~= ls.take(i as int));
            assert(ls.take(i + 1).last() == linha@);
        }
        let dois_pontos = match encontra(linha, ':') {
            None => {
                proof {
                    lema_erro_persiste(ls, i + 1);
                }
                return Err(ErroConfiguracao::LinhaSemSeparador);
            },
            Some(p) => p,
        };
        let n = linha.len();
        assert(dois_pontos < n);
        let nome = recorte(linha, 0, dois_pontos);
        let depois = recorte(linha, dois_pontos + 1, n);
        let resto = apara_com(&depois, true);
        proof {
            assert(nome@ =~= nome_da_linha(linha@));
            assert(depois@ =~= linha@.skip(dois_pontos + 1));
        }
        if !tem_ficha_exec(&resto) {
            proof {
                lema_erro_persiste(ls, i + 1);
            }
            return Err(ErroConfiguracao::ValidadeSemFichas);
        }
        let t = decomposicao_em_tokens(texto_de(&resto));
        if validade(&t) {
            if nanos_da_validade_exec(&t).is_none() {
                proof {
                    lema_erro_persiste(ls, i + 1);
                }
                return Err(ErroConfiguracao::ValidadeExcessiva);
            }
            let v = transforma_em_validade(t);
            let ghost antes = validades@;
            validades.push((texto_de(&nome), v));
            proof {
                let e = tipos_das_linhas(ls.take(i as int))->Ok_0;
                let e2 = tipos_das_linhas(ls.take(i + 1))->Ok_0;
                assert(e2 == e.push((nome@, nanos_da_validade(fichas(resto@)))));
                assert(validades@ == antes.push(validades@.last()));
                assert forall|j: int| 0 <= j < validades@.len() implies (#[trigger] validades@[j]).0@
                    == e2[j].0 && validades@[j].1.bem_formada() && validades@[j].1.em_nanos()
                    == e2[j].1 by {
                    if j < antes.len() {
                        assert(validades@[j] == antes[j]);
                    }
                }
            }
        }
        i = i + 1;
    }
    assert(ls.take(ls.len() as int) =~= ls);
    Ok(validades)
}

/// Decide `tem_ficha`.
pub fn tem_ficha_exec(s: &Vec<char>) -> (r: bool)
    ensures
        r == tem_ficha(s@),
{
    let mut i: usize = 0;
    while i < s.len()
        invariant
            0 <= i <= s.len(),
            forall|j: int| 0 <= j < i ==> classe(#[trigger] s@[j]) == 0,
        decreases s.len() - i,
    {
        let c = s[i];
        if e_digito(c) || c == '.' || e_alfabetico(c) {
            assert(classe(s@[i as int]) != 0);
            return true;
        }
        i = i + 1;
    }
    false
}

} // verus!
