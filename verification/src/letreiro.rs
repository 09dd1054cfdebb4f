use vstd::prelude::*;
use std::time::Instant;
use std::ops::Range;
use crate::texto::{acrescenta, caracteres, recorte, texto_de};
use crate::tempo::{Validade, instante_agora, decorrido_desde};

verus! {

/// Os sorteios que dão a pausa de um letreiro: um fator de 0 a 5, um acréscimo de 100
/// a 255 e um lado (acima ou abaixo de um segundo).
#[derive(Clone, Copy, Debug, PartialEq, Eq, Structural)]
pub struct Sorteio {
    pub fator: u8,
    pub acrescimo: u8,
    pub acima: bool,
}

/// A pausa, em milissegundos, entre dois passos do letreiro.
pub open spec fn pausa_de(s: Sorteio) -> u64 {
    let x = s.fator * s.acrescimo;
    (if s.acima {
        1000 + x
    } else if x > 1000 {
        x - 1000
    } else {
        1000 - x
    }) as u64
}

/// A letra sem acento que substitui `c` no letreiro.
pub open spec fn sem_acento(c: char) -> char {
    if c == '\u{e9}' || c == '\u{ea}' {
        'e'
    } else if c == '\u{e1}' || c == '\u{e2}' || c == '\u{e3}' || c == '\u{e0}' {
        'a'
    } else if c == '\u{fa}' {
        'u'
    } else if c == '\u{ed}' {
        'i'
    } else if c == '\u{f4}' || c == '\u{f3}' {
        'o'
    } else if c == '\u{e7}' {
        'c'
    } else {
        c
    }
}

/// `s` com os acentos trocados.
pub open spec fn sem_acentos(s: Seq<char>) -> Seq<char> {
    s.map_values(|c: char| sem_acento(c))
}

/// Tirar os acentos duas vezes é o mesmo que uma: o rolo de um rótulo já não tem
/// acentos a tirar.
pub proof fn lei_sem_acentos_idempotente(s: Seq<char>)
    ensures
        sem_acentos(sem_acentos(s)) == sem_acentos(s),
        sem_acentos(rolo_de(s)) == rolo_de(s),
{
    assert(sem_acentos(sem_acentos(s)) =~= sem_acentos(s));
    let r = repete(seq![' '] + s + seq![' '], 5);
    assert(sem_acentos(sem_acentos(r)) =~= sem_acentos(r));
}

/// Tirar os acentos não muda a quantidade de caracteres; o rolo tem cinco vezes o
/// rótulo com dois espaços.
pub proof fn lei_tamanho_do_rolo(s: Seq<char>)
    ensures
        sem_acentos(s).len() == s.len(),
        rolo_de(s).len() == 5 * (s.len() + 2),
{
    lema_repete_tamanho(seq![' '] + s + seq![' '], 5);
}

proof fn lema_repete_tamanho(u: Seq<char>, n: nat)
    ensures
        repete(u, n).len() == n * u.len(),
    decreases n,
{
    if n > 0 {
        lema_repete_tamanho(u, (n - 1) as nat);
        let m = (n - 1) as nat;
        assert(n * u.len() == m * u.len() + u.len()) by (nonlinear_arith)
            requires
                m + 1 == n,
        ;
    } else {
        assert(n * u.len() == 0) by (nonlinear_arith)
            requires
                n == 0,
        ;
    }
}

/// `u` repetido `n` vezes.
pub open spec fn repete(u: Seq<char>, n: nat) -> Seq<char>
    decreases n,
{
    if n == 0 {
        seq![]
    } else {
        repete(u, (n - 1) as nat) + u
    }
}

/// O rolo de um rótulo: cinco vezes o rótulo entre espaços, sem acentos.
pub open spec fn rolo_de(rotulo: Seq<char>) -> Seq<char> {
    sem_acentos(repete(seq![' '] + rotulo + seq![' '], 5))
}

/// Tamanho em bytes (UTF-8) de um texto.
pub open spec fn bytes_de(s: Seq<char>) -> nat {
    vstd::utf8::encode_utf8(s).len()
}

/// Quantos bytes o caractere ocupa em UTF-8.
pub open spec fn tamanho_utf8(c: char) -> nat {
    if (c as u32) <= 0x7f {
        1
    } else if (c as u32) <= 0x7ff {
        2
    } else if (c as u32) <= 0xffff {
        3
    } else {
        4
    }
}

/// A soma dos tamanhos em UTF-8 dos caracteres.
pub open spec fn soma_utf8(s: Seq<char>) -> nat
    decreases s.len(),
{
    if s.len() == 0 {
        0
    } else {
        tamanho_utf8(s[0]) + soma_utf8(s.drop_first())
    }
}

/// O tamanho de um texto em UTF-8 é a soma dos tamanhos dos seus caracteres, como
/// `tamanho_utf8` os conta.
pub proof fn lei_tamanho_utf8(s: Seq<char>)
    ensures
        bytes_de(s) == soma_utf8(s),
    decreases s.len(),
{
    if s.len() > 0 {
        vstd::utf8::char_is_scalar(s[0]);
        lei_tamanho_utf8(s.drop_first());
    }
}

/// A soma de uma concatenação.
proof fn lema_soma_concatena(a: Seq<char>, b: Seq<char>)
    ensures
        soma_utf8(a + b) == soma_utf8(a) + soma_utf8(b),
    decreases a.len(),
{
    if a.len() > 0 {
        assert((a + b).drop_first() =~= a.drop_first() + b);
        lema_soma_concatena(a.drop_first(), b);
    } else {
        assert(a + b =~= b);
    }
}

/// A soma dos tamanhos dos `i` primeiros caracteres cresce com `i`.
proof fn lema_prefixo_cresce(s: Seq<char>, i: int, j: int)
    requires
        0 <= i < j <= s.len(),
    ensures
        soma_utf8(s.take(i)) < soma_utf8(s.take(j)),
    decreases j - i,
{
    assert(s.take(j) =~= s.take(j - 1) + seq![s[j - 1]]);
    lema_soma_concatena(s.take(j - 1), seq![s[j - 1]]);
    assert(seq![s[j - 1]].drop_first() =~= Seq::<char>::empty());
    if i < j - 1 {
        lema_prefixo_cresce(s, i, j - 1);
    }
}

/// O byte `b` de `s` começa o caractere `i`.
pub open spec fn fronteira(s: Seq<char>, b: nat, i: int) -> bool {
    0 <= i <= s.len() && soma_utf8(s.take(i)) == b
}

/// O trecho de `s` entre os bytes `a` e `b`, quando os dois são fronteiras de
/// caracteres e `a <= b`.
pub open spec fn fatia_bytes(s: Seq<char>, a: nat, b: nat) -> Option<Seq<char>> {
    if a <= b && (exists|i: int| fronteira(s, a, i)) && (exists|j: int| fronteira(s, b, j)) {
        let i = choose|i: int| fronteira(s, a, i);
        let j = choose|j: int| fronteira(s, b, j);
        Some(s.subrange(i, j))
    } else {
        None
    }
}

/// Uma fronteira é única.
pub(crate) proof fn lema_fronteira_unica(s: Seq<char>, b: nat, i: int, j: int)
    requires
        fronteira(s, b, i),
        fronteira(s, b, j),
    ensures
        i == j,
{
    if i < j {
        lema_prefixo_cresce(s, i, j);
    } else if j < i {
        lema_prefixo_cresce(s, j, i);
    }
}

fn troca_acento(c: char) -> (r: char)
    ensures
        r == sem_acento(c),
{
    if c == '\u{e9}' || c == '\u{ea}' {
        'e'
    } else if c == '\u{e1}' || c == '\u{e2}' || c == '\u{e3}' || c == '\u{e0}' {
        'a'
    } else if c == '\u{fa}' {
        'u'
    } else if c == '\u{ed}' {
        'i'
    } else if c == '\u{f4}' || c == '\u{f3}' {
        'o'
    } else if c == '\u{e7}' {
        'c'
    } else {
        c
    }
}

/// Quantos bytes o caractere ocupa em UTF-8.
fn tamanho_utf8_exec(c: char) -> (r: usize)
    ensures
        r == tamanho_utf8(c),
{
    let u = c as u32;
    if u <= 0x7f {
        1
    } else if u <= 0x7ff {
        2
    } else if u <= 0xffff {
        3
    } else {
        4
    }
}

/// A posição do caractere que começa no byte `b`, se há um.
pub(crate) fn posicao_do_byte(cs: &Vec<char>, b: usize) -> (r: Option<usize>)
    requires
        b <= usize::MAX - 4,
    ensures
        r is Some <==> exists|i: int| fronteira(cs@, b as nat, i),
        r matches Some(i) ==> fronteira(cs@, b as nat, i as int),
{
    let mut k: usize = 0;
    let mut acc: usize = 0;
    while k < cs.len() && acc < b
        invariant
            0 <= k <= cs@.len(),
            b <= usize::MAX - 4,
            acc == soma_utf8(cs@.take(k as int)),
            acc < b + 4,
            forall|j: int| 0 <= j < k ==> soma_utf8(#[trigger] cs@.take(j)) < b,
        decreases cs@.len() - k,
    {
        proof {
            assert(cs@.take(k + 1) =~= cs@.take(k as int) + seq![cs@[k as int]]);
            lema_soma_concatena(cs@.take(k as int), seq![cs@[k as int]]);
            assert(seq![cs@[k as int]].drop_first() =~= Seq::<char>::empty());
            assert(soma_utf8(Seq::<char>::empty()) == 0);
            assert(soma_utf8(seq![cs@[k as int]]) == tamanho_utf8(cs@[k as int]));
        }
        acc = acc + tamanho_utf8_exec(cs[k]);
        k = k + 1;
    }
    if acc == b {
        assert(fronteira(cs@, b as nat, k as int));
        Some(k)
    } else {
        proof {
            assert forall|j: int| !fronteira(cs@, b as nat, j) by {
                if 0 <= j <= cs@.len() {
                    if j < k {
                    } else if j > k {
                        lema_prefixo_cresce(cs@, k as int, j);
                    }
                }
            }
        }
        None
    }
}

/// O trecho do rolo à mostra.
struct Janela {
    ponta_esquerda: u8,
    ponta_direita: u8,
    intervalo: Option<Range<usize>>,
}

/// O texto que se mostra de um letreiro em movimento.
pub struct Letreiro {
    ti: Instant,
    rotulo: String,
    capacidade: u8,
    janela: Janela,
    pausa: u64,
    rolo: String,
}

impl Letreiro {
    #[verifier::type_invariant]
    spec fn bem_formado(&self) -> bool {
        &&& self.capacidade == 30
        &&& self.janela.ponta_direita == self.janela.ponta_esquerda + 30
        &&& self.janela.intervalo matches Some(r) && r.start == self.janela.ponta_esquerda && r.end
            == self.janela.ponta_direita
    }

    /// O instante em que a contagem da pausa começou.
    pub closed spec fn inicio(&self) -> Instant {
        self.ti
    }

    /// O rótulo do letreiro.
    pub closed spec fn rotulo_spec(&self) -> Seq<char> {
        self.rotulo@
    }

    /// O rolo: o rótulo repetido, sem acentos.
    pub closed spec fn rolo_spec(&self) -> Seq<char> {
        self.rolo@
    }

    /// A pausa, em milissegundos, entre dois passos.
    pub closed spec fn pausa_spec(&self) -> u64 {
        self.pausa
    }

    /// Quantos bytes do rolo ficam à mostra.
    pub closed spec fn capacidade_spec(&self) -> u8 {
        self.capacidade
    }

    /// O trecho do rolo à mostra: de `pontas().0` a `pontas().1`.
    pub closed spec fn pontas(&self) -> (u8, u8) {
        (self.janela.ponta_esquerda, self.janela.ponta_direita)
    }

    /// Troca as letras acentuadas de `rolo` pelas sem acento.
    pub fn remove_acentuacao(rolo: &mut String)
        ensures
            final(rolo)@ == sem_acentos(old(rolo)@),
    {
        let cs = caracteres(rolo.as_str());
        let mut r: Vec<char> = Vec::new();
        let mut i: usize = 0;
        while i < cs.len()
            invariant
                0 <= i <= cs.len(),
                r@ == sem_acentos(cs@.take(i as int)),
            decreases cs.len() - i,
        {
            r.push(troca_acento(cs[i]));
            assert(sem_acentos(cs@.take(i + 1)) =~= sem_acentos(cs@.take(i as int)).push(
                sem_acento(cs@[i as int]),
            ));
            i = i + 1;
        }
        assert(cs@.take(cs.len() as int) =~= cs@);
        *rolo = texto_de(&r);
    }

    /// O rolo de um rótulo (ver `rolo_de`).
    pub fn cria_rolo(rotulo: &str) -> (r: String)
        ensures
            r@ == rolo_de(rotulo@),
    {
        let rs = caracteres(rotulo);
        let ghost u = seq![' '] + rotulo@ + seq![' '];
        let mut cs: Vec<char> = Vec::new();
        let mut n: usize = 0;
        while n < 5
            invariant
                0 <= n <= 5,
                rs@ == rotulo@,
                u == seq![' '] + rotulo@ + seq![' '],
                cs@ == repete(u, n as nat),
            decreases 5 - n,
        {
            let ghost antes = cs@;
            cs.push(' ');
            let mut j: usize = 0;
            while j < rs.len()
                invariant
                    0 <= j <= rs.len(),
                    cs@ == antes + seq![' '] + rs@.take(j as int),
                decreases rs.len() - j,
            {
                cs.push(rs[j]);
                assert(rs@.take(j + 1) =~= rs@.take(j as int).push(rs@[j as int]));
                j = j + 1;
            }
            cs.push(' ');
            assert(rs@.take(rs.len() as int) =~= rs@);
            assert(cs@ =~= antes + u);
            n = n + 1;
        }
        let mut rolo = texto_de(&cs);
        Letreiro::remove_acentuacao(&mut rolo);
        rolo
    }

    /// Cria um letreiro para `label`, com a pausa dada pelo sorteio. Um rótulo vazio é
    /// recusado.
    pub fn novo(label: &str, sorteio: Sorteio) -> (r: Result<Letreiro, &'static str>)
        ensures
            r is Err <==> label@.len() == 0,
            r matches Err(m) ==> m@ == "não é permitido strings em branco"@,
            r matches Ok(l) ==> {
                &&& l.rotulo_spec() == label@
                &&& l.rolo_spec() == rolo_de(label@)
                &&& l.pausa_spec() == pausa_de(sorteio)
                &&& l.capacidade_spec() == 30
                &&& l.pontas() == (0u8, 30u8)
            },
    {
        if label.unicode_len() == 0 {
            Err("não é permitido strings em branco")
        } else {
            let capacidade: u8 = 30;
            let intervalo = Some(0..capacidade as usize);
            let rolo = Letreiro::cria_rolo(label);
            let fator = sorteio.fator as u64;
            let acrescimo = sorteio.acrescimo as u64;
            assert(fator * acrescimo <= 65025) by (nonlinear_arith)
                requires
                    fator <= 255,
                    acrescimo <= 255,
            ;
            let x = fator * acrescimo;
            let pausa = if sorteio.acima {
                1_000 + x
            } else {
                if x > 1_000 {
                    x - 1_000
                } else {
                    1000 - x
                }
            };
            let rotulo = caracteres(label);
            Ok(
                Letreiro {
                    ti: instante_agora(),
                    rotulo: texto_de(&rotulo),
                    capacidade,
                    janela: Janela { ponta_esquerda: 0, ponta_direita: capacidade, intervalo },
                    pausa,
                    rolo,
                },
            )
        }
    }

    /// As pontas depois de um passo em que `decorrido` passou desde o último
    /// deslocamento: se a ponta direita está no fim do rolo (o tamanho em bytes,
    /// truncado a 8 bits), volta ao começo; se passou mais que a pausa e a ponta direita
    /// não passou do fim, as duas avançam uma casa.
    pub open spec fn pontas_apos(&self, decorrido: Validade) -> (u8, u8) {
        let (pe, pd) = self.pontas_reiniciadas();
        if self.desloca_apos(decorrido) {
            ((pe + 1) as u8, (pd + 1) as u8)
        } else {
            (pe, pd)
        }
    }

    /// O tamanho do rolo em bytes, truncado a 8 bits.
    pub open spec fn tamanho_do_rolo(&self) -> u8 {
        (bytes_de(self.rolo_spec()) as usize) as u8
    }

    /// As pontas antes de andar: de volta ao começo se a ponta direita está no fim do rolo.
    pub open spec fn pontas_reiniciadas(&self) -> (u8, u8) {
        if self.pontas().1 == self.tamanho_do_rolo() {
            (0u8, self.capacidade_spec())
        } else {
            self.pontas()
        }
    }

    /// O letreiro anda uma casa quando `decorrido` passa da pausa e a ponta direita não
    /// passou do fim do rolo.
    pub open spec fn desloca_apos(&self, decorrido: Validade) -> bool {
        decorrido.em_nanos() > self.pausa_spec() * 1_000_000 && self.pontas_reiniciadas().1
            <= self.tamanho_do_rolo()
    }

    /// `depois` é este letreiro depois de um passo em que `decorrido` passou desde o
    /// último deslocamento: as pontas andam como `pontas_apos`; se deslocou, a contagem
    /// recomeça em `agora`, senão segue do mesmo instante; o resto não muda.
    pub open spec fn passo(&self, depois: Letreiro, decorrido: Validade, agora: Instant) -> bool {
        &&& depois.pontas() == self.pontas_apos(decorrido)
        &&& depois.inicio() == (if self.desloca_apos(decorrido) {
            agora
        } else {
            self.inicio()
        })
        &&& depois.rotulo_spec() == self.rotulo_spec()
        &&& depois.rolo_spec() == self.rolo_spec()
        &&& depois.pausa_spec() == self.pausa_spec()
        &&& depois.capacidade_spec() == self.capacidade_spec()
    }

    /// A cada passo a janela continua com a largura da capacidade e anda no máximo uma
    /// casa; quando a ponta direita está no fim do rolo, a janela volta ao começo (e
    /// anda no máximo uma casa a partir dali).
    pub proof fn lei_passo(&self, decorrido: Validade)
        requires
            self.capacidade_spec() == 30,
            self.pontas().1 == self.pontas().0 + 30,
        ensures
            self.pontas_apos(decorrido).1 == self.pontas_apos(decorrido).0 + 30,
            self.pontas().1 == self.tamanho_do_rolo() ==> self.pontas_apos(decorrido).0 <= 1,
            self.pontas().1 != self.tamanho_do_rolo() ==> self.pontas_apos(decorrido).0
                == self.pontas().0 || self.pontas_apos(decorrido).0 == self.pontas().0 + 1,
    {
    }

    /// Um passo do letreiro quando `decorrido` passou desde o último deslocamento; ao
    /// deslocar, a contagem recomeça em `agora` (ver `passo`). A janela tem sempre a
    /// largura da capacidade, 30 bytes.
    pub fn movimenta_apos(&mut self, decorrido: Validade, agora: Instant)
        ensures
            old(self).passo(*final(self), decorrido, agora),
            final(self).capacidade_spec() == 30,
            final(self).pontas().1 == final(self).pontas().0 + 30,
    {
        proof {
            use_type_invariant(&*self);
        }
        let tamanho = self.rolo.as_str().len() as u8;
        let mut pe = self.janela.ponta_esquerda;
        let mut pd = self.janela.ponta_direita;
        if pd == tamanho {
            pd = self.capacidade;
            pe = 0;
        }
        let passou = decorrido.nanos_totais() > self.pausa as u128 * 1_000_000;
        let mut deslocou = false;
        if passou && pd <= tamanho {
            pe = pe + 1;
            pd = pd + 1;
            deslocou = true;
        }
        self.janela = Janela { ponta_esquerda: pe, ponta_direita: pd, intervalo: Some(pe as usize..pd as usize) };
        if deslocou {
            self.ti = agora;
        }
    }

    /// Move o letreiro conforme o relógio (ver `movimenta_apos`): o tempo decorrido e o
    /// novo início da contagem são lidos do relógio.
    pub fn movimenta_letreiro(&mut self)
        ensures
            exists|d: Validade, agora: Instant|
                d.bem_formada() && #[trigger] old(self).passo(*final(self), d, agora),
            final(self).capacidade_spec() == 30,
            final(self).pontas().1 == final(self).pontas().0 + 30,
    {
        let decorrido = decorrido_desde(&self.ti);
        let agora = instante_agora();
        self.movimenta_apos(decorrido, agora);
    }

    /// O que o letreiro mostra: o rótulo sem acentos, se o seu tamanho em bytes
    /// (truncado a 8 bits) é menor que a capacidade; senão, o trecho do rolo entre as
    /// pontas (em bytes), seguido de "...". Não há texto quando as pontas não caem em
    /// fronteiras de caracteres do rolo.
    pub open spec fn texto_spec(&self) -> Option<Seq<char>> {
        let rotulo = sem_acentos(self.rotulo_spec());
        if ((bytes_de(rotulo) as usize) as u8) < self.capacidade_spec() {
            Some(rotulo)
        } else {
            match fatia_bytes(self.rolo_spec(), self.pontas().0 as nat, self.pontas().1 as nat) {
                Some(t) => Some(t + "..."@),
                None => None,
            }
        }
    }

    /// O texto que o letreiro mostra agora (ver `texto_spec`); `None` quando as pontas
    /// não caem em fronteiras de caracteres do rolo.
    pub fn texto(&self) -> (r: Option<String>)
        ensures
            r is None <==> self.texto_spec() is None,
            r matches Some(t) ==> Some(t@) == self.texto_spec(),
    {
        proof {
            use_type_invariant(self);
        }
        let mut rotulo = self.rotulo.clone();
        Letreiro::remove_acentuacao(&mut rotulo);
        let tamanho = rotulo.as_str().len() as u8;
        if tamanho < self.capacidade {
            return Some(rotulo);
        }
        let cs = caracteres(self.rolo.as_str());
        let pe = self.janela.ponta_esquerda as usize;
        let pd = self.janela.ponta_direita as usize;
        match (posicao_do_byte(&cs, pe), posicao_do_byte(&cs, pd)) {
            (Some(i), Some(j)) => {
                proof {
                    let ci = choose|x: int| fronteira(cs@, pe as nat, x);
                    let cj = choose|x: int| fronteira(cs@, pd as nat, x);
                    lema_fronteira_unica(cs@, pe as nat, i as int, ci);
                    lema_fronteira_unica(cs@, pd as nat, j as int, cj);
                    if j < i {
                        lema_prefixo_cresce(cs@, j as int, i as int);
                    }
                }
                let mut t = recorte(&cs, i, j);
                acrescenta(&mut t, &caracteres("..."));
                Some(texto_de(&t))
            },
            _ => None,
        }
    }
}

} // verus!
