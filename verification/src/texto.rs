use vstd::prelude::*;

verus! {

/// Dígito decimal ASCII.
pub open spec fn digito(c: char) -> bool {
    '0' <= c && c <= '9'
}

/// Letra ASCII, maiúscula ou minúscula.
pub open spec fn letra_ascii(c: char) -> bool {
    ('a' <= c && c <= 'z') || ('A' <= c && c <= 'Z')
}

/// A propriedade Unicode `White_Space`, caractere a caractere.
pub open spec fn espaco_branco(c: char) -> bool {
    ||| ('\u{9}' <= c && c <= '\u{d}')
    ||| c == ' '
    ||| c == '\u{85}'
    ||| c == '\u{a0}'
    ||| c == '\u{1680}'
    ||| ('\u{2000}' <= c && c <= '\u{200a}')
    ||| c == '\u{2028}'
    ||| c == '\u{2029}'
    ||| c == '\u{202f}'
    ||| c == '\u{205f}'
    ||| c == '\u{3000}'
}

/// Letra latina acentuada ou não do bloco Latin-1 (de U+00C0 a U+00FF, sem os sinais
/// de multiplicação e divisão).
pub open spec fn letra_latina(c: char) -> bool {
    ('\u{c0}' <= c && c <= '\u{d6}') || ('\u{d8}' <= c && c <= '\u{f6}') || ('\u{f8}' <= c
        && c <= '\u{ff}')
}

/// O que `char::is_alphabetic` responde sobre `c` (a propriedade Unicode `Alphabetic`).
pub uninterp spec fn alfabetico(c: char) -> bool;

/// Chama `char::is_alphabetic`. O contrato diz que o resultado é `alfabetico(c)` e,
/// como a propriedade `Alphabetic` do Unicode abrange as letras ASCII e as letras
/// latinas do bloco Latin-1 (como "ê") e não abrange dígitos decimais nem o ponto, que
/// essas letras são alfabéticas e esses outros caracteres não.
#[verifier::external_body]
pub(crate) fn e_alfabetico(c: char) -> (r: bool)
    ensures
        r == alfabetico(c),
        letra_ascii(c) ==> r,
        letra_latina(c) ==> r,
        (digito(c) || c == '.') ==> !r,
{
    c.is_alphabetic()
}

/// Decide `digito`.
pub fn e_digito(c: char) -> (r: bool)
    ensures
        r == digito(c),
{
    '0' <= c && c <= '9'
}

/// Decide `espaco_branco`.
pub fn e_espaco_branco(c: char) -> (r: bool)
    ensures
        r == espaco_branco(c),
{
    ('\u{9}' <= c && c <= '\u{d}') || c == ' ' || c == '\u{85}' || c == '\u{a0}'
        || c == '\u{1680}' || ('\u{2000}' <= c && c <= '\u{200a}') || c == '\u{2028}'
        || c == '\u{2029}' || c == '\u{202f}' || c == '\u{205f}' || c == '\u{3000}'
}

/// Os caracteres de `s`, em ordem.
pub fn caracteres(s: &str) -> (r: Vec<char>)
    ensures
        r@ == s@,
{
    let mut r: Vec<char> = Vec::new();
    for c in it: s.chars()
        invariant
            r@ == it.seq().take(it.index() as int),
    {
        r.push(c);
    }
    r
}

/// Junta caracteres num `String` (chama `FromIterator<&char>` de `String`).
#[verifier::external_body]
pub(crate) fn texto_de(cs: &Vec<char>) -> (s: String)
    ensures
        s@ == cs@,
{
    cs.iter().collect()
}

/// Compara duas sequências de caracteres.
pub fn iguais(a: &Vec<char>, b: &Vec<char>) -> (r: bool)
    ensures
        r == (a@ == b@),
{
    if a.len() != b.len() {
        return false;
    }
    let mut i: usize = 0;
    while i < a.len()
        invariant
            a.len() == b.len(),
            0 <= i <= a.len(),
            forall|j: int| 0 <= j < i ==> a@[j] == b@[j],
        decreases a.len() - i,
    {
        if a[i] != b[i] {
            return false;
        }
        i = i + 1;
    }
    assert(a@ =~= b@);
    true
}

/// `c` ocorre em `s`.
pub fn contem(s: &Vec<char>, c: char) -> (r: bool)
    ensures
        r == s@.contains(c),
{
    let mut i: usize = 0;
    while i < s.len()
        invariant
            0 <= i <= s.len(),
            forall|j: int| 0 <= j < i ==> s@[j] != c,
        decreases s.len() - i,
    {
        if s[i] == c {
            assert(s@[i as int] == c);
            return true;
        }
        i = i + 1;
    }
    false
}

/// Posição da primeira ocorrência de `c` em `s`.
pub open spec fn primeira_posicao(s: Seq<char>, c: char) -> int
    recommends
        s.contains(c),
    decreases s.len(),
{
    if s.len() == 0 {
        0
    } else if s[0] == c {
        0
    } else {
        1 + primeira_posicao(s.drop_first(), c)
    }
}

/// A primeira posição de um caractere que ocorre tem esse caractere e nenhuma antes.
pub proof fn lema_primeira_posicao(s: Seq<char>, c: char)
    requires
        s.contains(c),
    ensures
        0 <= primeira_posicao(s, c) < s.len(),
        s[primeira_posicao(s, c)] == c,
        forall|j: int| 0 <= j < primeira_posicao(s, c) ==> s[j] != c,
    decreases s.len(),
{
    if s[0] != c {
        let k = choose|k: int| 0 <= k < s.len() && s[k] == c;
        assert(s.drop_first()[k - 1] == c);
        lema_primeira_posicao(s.drop_first(), c);
        assert forall|j: int| 0 <= j < primeira_posicao(s, c) implies s[j] != c by {
            if j > 0 {
                assert(s[j] == s.drop_first()[j - 1]);
            }
        }
    }
}

/// Procura `c` em `s`: a posição da primeira ocorrência, se houver.
pub fn encontra(s: &Vec<char>, c: char) -> (r: Option<usize>)
    ensures
        r is None <==> !s@.contains(c),
        r matches Some(i) ==> i == primeira_posicao(s@, c) && i < s@.len() && s@[i as int] == c,
{
    let mut i: usize = 0;
    while i < s.len()
        invariant
            0 <= i <= s.len(),
            forall|j: int| 0 <= j < i ==> s@[j] != c,
        decreases s.len() - i,
    {
        if s[i] == c {
            proof {
                lema_primeira_posicao(s@, c);
                let p = primeira_posicao(s@, c);
                assert(p == i) by {
                    if p < i {
                        assert(s@[p] != c);
                    }
                    if p > i {
                        assert(s@[i as int] == c);
                    }
                }
            }
            return Some(i);
        }
        i = i + 1;
    }
    None
}

/// O que se descarta das pontas ao aparar: espaço em branco, ou só aspas.
pub open spec fn descartavel(c: char, aspas: bool) -> bool {
    if aspas {
        c == '"'
    } else {
        espaco_branco(c)
    }
}

fn e_descartavel(c: char, aspas: bool) -> (r: bool)
    ensures
        r == descartavel(c, aspas),
{
    if aspas {
        c == '"'
    } else {
        e_espaco_branco(c)
    }
}

/// Quantos caracteres descartáveis abrem `s`.
pub open spec fn descartaveis_no_inicio(s: Seq<char>, aspas: bool) -> nat
    decreases s.len(),
{
    if s.len() > 0 && descartavel(s[0], aspas) {
        1 + descartaveis_no_inicio(s.drop_first(), aspas)
    } else {
        0
    }
}

/// Quantos caracteres descartáveis fecham `s`.
pub open spec fn descartaveis_no_fim(s: Seq<char>, aspas: bool) -> nat
    decreases s.len(),
{
    if s.len() > 0 && descartavel(s.last(), aspas) {
        1 + descartaveis_no_fim(s.drop_last(), aspas)
    } else {
        0
    }
}

/// `s` sem os caracteres descartáveis das duas pontas.
pub open spec fn aparado_com(s: Seq<char>, aspas: bool) -> Seq<char> {
    let sem_inicio = s.skip(descartaveis_no_inicio(s, aspas) as int);
    sem_inicio.take(sem_inicio.len() - descartaveis_no_fim(sem_inicio, aspas))
}

/// `s` sem os espaços em branco das pontas (o que `str::trim` devolve).
pub open spec fn aparado(s: Seq<char>) -> Seq<char> {
    aparado_com(s, false)
}

/// `s` sem as aspas das pontas (o que `str::trim_matches('"')` devolve).
pub open spec fn sem_aspas(s: Seq<char>) -> Seq<char> {
    aparado_com(s, true)
}

proof fn lema_descartaveis_no_inicio(s: Seq<char>, aspas: bool, i: int)
    requires
        0 <= i <= s.len(),
        forall|j: int| 0 <= j < i ==> descartavel(#[trigger] s[j], aspas),
        i == s.len() || !descartavel(s[i], aspas),
    ensures
        descartaveis_no_inicio(s, aspas) == i,
    decreases i,
{
    if i > 0 {
        lema_descartaveis_no_inicio(s.drop_first(), aspas, i - 1);
    }
}

proof fn lema_descartaveis_no_fim(s: Seq<char>, aspas: bool, f: int)
    requires
        0 <= f <= s.len(),
        forall|j: int| f <= j < s.len() ==> descartavel(#[trigger] s[j], aspas),
        f == 0 || !descartavel(s[f - 1], aspas),
    ensures
        descartaveis_no_fim(s, aspas) == s.len() - f,
    decreases s.len() - f,
{
    if f < s.len() {
        lema_descartaveis_no_fim(s.drop_last(), aspas, f);
    }
}

/// Os descartáveis do início param antes do primeiro caractere que fica.
proof fn lema_inicio_para(s: Seq<char>, aspas: bool)
    ensures
        descartaveis_no_inicio(s, aspas) <= s.len(),
        descartaveis_no_inicio(s, aspas) < s.len() ==> !descartavel(
            s[descartaveis_no_inicio(s, aspas) as int],
            aspas,
        ),
    decreases s.len(),
{
    if s.len() > 0 && descartavel(s[0], aspas) {
        lema_inicio_para(s.drop_first(), aspas);
        let a = descartaveis_no_inicio(s.drop_first(), aspas);
        if a < s.len() - 1 {
            assert(s.drop_first()[a as int] == s[a as int + 1]);
        }
    }
}

/// Os descartáveis do fim param depois do último caractere que fica.
proof fn lema_fim_para(s: Seq<char>, aspas: bool)
    ensures
        descartaveis_no_fim(s, aspas) <= s.len(),
        descartaveis_no_fim(s, aspas) < s.len() ==> !descartavel(
            s[s.len() - descartaveis_no_fim(s, aspas) - 1],
            aspas,
        ),
    decreases s.len(),
{
    if s.len() > 0 && descartavel(s.last(), aspas) {
        lema_fim_para(s.drop_last(), aspas);
        let b = descartaveis_no_fim(s.drop_last(), aspas);
        if b < s.len() - 1 {
            assert(s.drop_last()[s.len() - 1 - b - 1] == s[s.len() - (b + 1) - 1]);
        }
    }
}

/// O texto aparado é um trecho contíguo do original e, se não for vazio, não começa
/// nem termina com espaço em branco.
pub proof fn lei_aparado(s: Seq<char>)
    ensures
        ({
            let a = descartaveis_no_inicio(s, false) as int;
            &&& a + aparado(s).len() <= s.len()
            &&& aparado(s) == s.subrange(a, a + aparado(s).len())
        }),
        aparado(s).len() > 0 ==> !espaco_branco(aparado(s)[0]) && !espaco_branco(
            aparado(s)[aparado(s).len() - 1],
        ),
{
    lema_inicio_para(s, false);
    let a = descartaveis_no_inicio(s, false) as int;
    let t = s.skip(a);
    lema_fim_para(t, false);
    let b = descartaveis_no_fim(t, false) as int;
    let x = aparado(s);
    assert(x == t.take(t.len() - b));
    assert(x =~= s.subrange(a, a + x.len()));
    if x.len() > 0 {
        assert(x[0] == s[a]);
        assert(x[x.len() - 1] == t[t.len() - b - 1]);
    }
}

/// Acrescenta a `r` os caracteres de `s`.
pub fn acrescenta(r: &mut Vec<char>, s: &Vec<char>)
    ensures
        final(r)@ == old(r)@ + s@,
{
    let mut i: usize = 0;
    while i < s.len()
        invariant
            0 <= i <= s@.len(),
            r@ == old(r)@ + s@.take(i as int),
        decreases s@.len() - i,
    {
        r.push(s[i]);
        assert(s@.take(i + 1) =~= s@.take(i as int).push(s@[i as int]));
        i = i + 1;
    }
    assert(s@.take(s@.len() as int) =~= s@);
}

/// Recorta `s[de..ate]`.
pub fn recorte(s: &Vec<char>, de: usize, ate: usize) -> (r: Vec<char>)
    requires
        de <= ate <= s.len(),
    ensures
        r@ == s@.subrange(de as int, ate as int),
{
    let mut r: Vec<char> = Vec::new();
    let mut i = de;
    while i < ate
        invariant
            de <= i <= ate <= s.len(),
            r@ == s@.subrange(de as int, i as int),
        decreases ate - i,
    {
        r.push(s[i]);
        i = i + 1;
    }
    r
}

/// `s` sem os caracteres descartáveis das pontas.
pub fn apara_com(s: &Vec<char>, aspas: bool) -> (r: Vec<char>)
    ensures
        r@ == aparado_com(s@, aspas),
{
    let mut i: usize = 0;
    while i < s.len() && e_descartavel(s[i], aspas)
        invariant
            0 <= i <= s.len(),
            forall|j: int| 0 <= j < i ==> descartavel(#[trigger] s@[j], aspas),
        decreases s.len() - i,
    {
        i = i + 1;
    }
    proof {
        lema_descartaveis_no_inicio(s@, aspas, i as int);
    }
    let mut f: usize = s.len();
    while f > i && e_descartavel(s[f - 1], aspas)
        invariant
            i <= f <= s.len(),
            forall|j: int| f <= j < s.len() ==> descartavel(#[trigger] s@[j], aspas),
        decreases f,
    {
        f = f - 1;
    }
    proof {
        let meio = s@.skip(i as int);
        assert forall|j: int| f - i <= j < meio.len() implies descartavel(#[trigger] meio[j], aspas) by {
            assert(meio[j] == s@[j + i]);
        }
        if f > i {
            assert(meio[f - i - 1] == s@[f - 1]);
        }
        lema_descartaveis_no_fim(meio, aspas, f - i);
        assert(meio.take(f - i) =~= s@.subrange(i as int, f as int));
    }
    recorte(s, i, f)
}

/// `s` sem os espaços em branco das pontas.
pub fn apara(s: &Vec<char>) -> (r: Vec<char>)
    ensures
        r@ == aparado(s@),
{
    apara_com(s, false)
}

} // verus!
