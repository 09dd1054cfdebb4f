use vstd::prelude::*;
use vstd::multiset::Multiset;
use std::time::{Instant, SystemTime};
use crate::letreiro::{Letreiro, Sorteio, rolo_de, pausa_de};
use crate::tempo::{Validade, idade_de};

verus! {

/// Nanossegundos num dia.
pub const NANOS_POR_DIA: u128 = 86_400_000_000_000;

/// O último componente de um caminho, como texto (o que `Path::file_name` dá, lido
/// como UTF-8).
pub uninterp spec fn nome_do_arquivo(caminho: Seq<char>) -> Option<Seq<char>>;

/// Chama `Path::file_name` sobre `caminho` e lê o nome como texto. O contrato só
/// amarra o resultado ao nome `nome_do_arquivo`, função do caminho.
#[verifier::external_body]
fn nome_final(caminho: &str) -> (r: Option<String>)
    ensures
        match r {
            Some(n) => nome_do_arquivo(caminho@) == Some(n@),
            None => nome_do_arquivo(caminho@) is None,
        },
{
    let nome = std::path::Path::new(caminho).file_name()?;
    Some(nome.to_str()?.to_string())
}

/// Elemento da fila, com os dados do arquivo e, principalmente, a validade.
pub struct Item {
    /// caminho para o item.
    pub caminho: String,
    /// nome do item em si.
    pub nome: String,
    /// tempo de vida na fila de exclusão.
    pub validade: Validade,
    /// o último acesso do item.
    pub ultimo_acesso: SystemTime,
    /// letreiro dinâmico, para o modo gráfico.
    pub letreiro: Letreiro,
}

/// O item expirou quando a idade passa da validade.
pub open spec fn expira(it: Item, idade: Validade) -> bool {
    it.validade.em_nanos() < idade.em_nanos()
}

/// O item vence em menos de um dia.
pub open spec fn vai_hoje(it: Item, idade: Validade) -> bool {
    it.validade.em_nanos() < idade.em_nanos() + NANOS_POR_DIA
}

/// O tempo que resta da validade, em nanossegundos (zero se já expirou).
pub open spec fn restante(it: Item, idade: Validade) -> int {
    if expira(it, idade) {
        0
    } else {
        it.validade.em_nanos() - idade.em_nanos()
    }
}

/// Um item expirado vence hoje, e o que resta dele é zero.
pub proof fn lei_expirado_vai_hoje(it: Item, idade: Validade)
    ensures
        expira(it, idade) ==> vai_hoje(it, idade) && restante(it, idade) == 0,
{
}

/// Os dois itens falam do mesmo arquivo, com a mesma validade; só o letreiro pode ter
/// andado.
pub open spec fn mesmo_arquivo(a: Item, b: Item) -> bool {
    &&& a.caminho == b.caminho
    &&& a.nome == b.nome
    &&& a.validade == b.validade
    &&& a.ultimo_acesso == b.ultimo_acesso
    &&& a.letreiro.rotulo_spec() == b.letreiro.rotulo_spec()
    &&& a.letreiro.rolo_spec() == b.letreiro.rolo_spec()
    &&& a.letreiro.pausa_spec() == b.letreiro.pausa_spec()
}

/// `depois` é o item `antes` depois de um passo do letreiro: o mesmo arquivo, com o
/// letreiro andado como num `Letreiro::passo` (para algum tempo decorrido e algum novo
/// início).
pub open spec fn um_passo(antes: Item, depois: Item) -> bool {
    &&& mesmo_arquivo(depois, antes)
    &&& exists|d: Validade, agora: Instant|
        d.bem_formada() && #[trigger] antes.letreiro.passo(depois.letreiro, d, agora)
}

impl Item {
    /// Cria o item do arquivo em `caminho`; o nome é o último componente do caminho e o
    /// letreiro mostra esse nome. Exige que o caminho tenha um nome não vazio.
    pub fn cria(caminho: String, ultimo_acesso: SystemTime, validade: Validade, sorteio: Sorteio) -> (r: Item)
        requires
            nome_do_arquivo(caminho@) matches Some(n) && n.len() > 0,
        ensures
            r.caminho == caminho,
            Some(r.nome@) == nome_do_arquivo(caminho@),
            r.validade == validade,
            r.ultimo_acesso == ultimo_acesso,
            r.letreiro.rotulo_spec() == r.nome@,
            r.letreiro.rolo_spec() == rolo_de(r.nome@),
            r.letreiro.pausa_spec() == pausa_de(sorteio),
            r.letreiro.pontas() == (0u8, 30u8),
    {
        let nome = nome_final(caminho.as_str()).unwrap();
        let letreiro = match Letreiro::novo(nome.as_str(), sorteio) {
            Ok(l) => l,
            Err(_) => vstd::pervasive::unreached(),
        };
        Item { caminho, nome, validade, ultimo_acesso, letreiro }
    }

    /// Como `cria`, mas devolve `None` quando o caminho não tem nome não vazio.
    pub fn cria_se_possivel(caminho: String, ultimo_acesso: SystemTime, validade: Validade, sorteio: Sorteio) -> (r: Option<Item>)
        ensures
            r is None <==> !(nome_do_arquivo(caminho@) matches Some(n) && n.len() > 0),
            r matches Some(it) ==> {
                &&& it.caminho == caminho
                &&& Some(it.nome@) == nome_do_arquivo(caminho@)
                &&& it.validade == validade
                &&& it.ultimo_acesso == ultimo_acesso
                &&& it.letreiro.rotulo_spec() == it.nome@
                &&& it.letreiro.rolo_spec() == rolo_de(it.nome@)
                &&& it.letreiro.pausa_spec() == pausa_de(sorteio)
            },
    {
        match nome_final(caminho.as_str()) {
            None => None,
            Some(n) => {
                if n.as_str().unicode_len() == 0 {
                    None
                } else {
                    Some(Item::cria(caminho, ultimo_acesso, validade, sorteio))
                }
            },
        }
    }

    /// Se o item expirou, sendo `idade` o tempo desde o último acesso.
    pub fn expira_com(&self, idade: Validade) -> (r: bool)
        ensures
            r == expira(*self, idade),
    {
        self.validade.nanos_totais() < idade.nanos_totais()
    }

    /// O tempo que resta da validade, sendo `idade` o tempo desde o último acesso.
    pub fn tempo_restante_com(&self, idade: Validade) -> (r: Validade)
        requires
            self.validade.bem_formada(),
        ensures
            r.bem_formada(),
            r.em_nanos() == restante(*self, idade),
    {
        let v = self.validade.nanos_totais();
        let a = idade.nanos_totais();
        if v < a {
            Validade::de_nanos(0)
        } else {
            Validade::de_nanos(v - a)
        }
    }

    /// Dá um passo do letreiro (ver `Letreiro::passo`) e lê a idade do item
    /// pelo relógio.
    pub fn idade_atual(&mut self) -> (r: Validade)
        ensures
            r.bem_formada(),
            mesmo_arquivo(*final(self), *old(self)),
            exists|d: Validade, agora: Instant|
                d.bem_formada() && #[trigger] old(self).letreiro.passo(final(self).letreiro, d, agora),
    {
        self.letreiro.movimenta_letreiro();
        idade_de(&self.ultimo_acesso)
    }

    /// Verifica se o item já expirou (e dá um passo do letreiro, pois é chamado com
    /// frequência).
    pub fn expirado(&mut self) -> (r: bool)
        ensures
            mesmo_arquivo(*final(self), *old(self)),
            exists|d: Validade, agora: Instant|
                d.bem_formada() && #[trigger] old(self).letreiro.passo(final(self).letreiro, d, agora),
            exists|idade: Validade| idade.bem_formada() && r == expira(*old(self), idade),
    {
        let idade = self.idade_atual();
        self.expira_com(idade)
    }

    /// O tempo que resta da validade, pelo relógio (e um passo do letreiro).
    pub fn tempo_restante(&mut self) -> (r: Validade)
        requires
            old(self).validade.bem_formada(),
        ensures
            mesmo_arquivo(*final(self), *old(self)),
            exists|d: Validade, agora: Instant|
                d.bem_formada() && #[trigger] old(self).letreiro.passo(final(self).letreiro, d, agora),
            r.bem_formada(),
            exists|idade: Validade| idade.bem_formada() && r.em_nanos() == restante(*old(self), idade),
    {
        let idade = self.idade_atual();
        self.tempo_restante_com(idade)
    }
}

/// Os itens que ficam: os não marcados, na ordem.
pub open spec fn ficam(itens: Seq<Item>, marcas: Seq<bool>) -> Seq<Item>
    decreases itens.len(),
{
    if itens.len() == 0 {
        seq![]
    } else {
        let resto = ficam(itens.drop_first(), marcas.drop_first());
        if marcas[0] {
            resto
        } else {
            seq![itens[0]] + resto
        }
    }
}

/// Os itens que saem: os marcados, do último ao primeiro.
pub open spec fn saem(itens: Seq<Item>, marcas: Seq<bool>) -> Seq<Item>
    decreases itens.len(),
{
    if itens.len() == 0 {
        seq![]
    } else {
        let resto = saem(itens.drop_first(), marcas.drop_first());
        if marcas[0] {
            resto.push(itens[0])
        } else {
            resto
        }
    }
}

/// Quantos dos itens estão marcados.
pub open spec fn marcados(marcas: Seq<bool>) -> nat
    decreases marcas.len(),
{
    if marcas.len() == 0 {
        0
    } else {
        (if marcas[0] {
            1nat
        } else {
            0nat
        }) + marcados(marcas.drop_first())
    }
}

/// Separar os itens marcados não perde nem repete nenhum: os que ficam e os que saem
/// são, juntos, os mesmos itens; saem tantos quantos estão marcados; os que ficam
/// estavam desmarcados e os que saem, marcados.
pub proof fn lei_separacao_conserva(itens: Seq<Item>, marcas: Seq<bool>)
    requires
        itens.len() == marcas.len(),
    ensures
        ficam(itens, marcas).to_multiset().add(saem(itens, marcas).to_multiset())
            == itens.to_multiset(),
        saem(itens, marcas).len() == marcados(marcas),
        ficam(itens, marcas).len() + saem(itens, marcas).len() == itens.len(),
        forall|x: Item|
            #[trigger] ficam(itens, marcas).contains(x) ==> exists|j: int|
                0 <= j < itens.len() && itens[j] == x && !marcas[j],
        forall|x: Item|
            #[trigger] saem(itens, marcas).contains(x) ==> exists|j: int|
                0 <= j < itens.len() && itens[j] == x && marcas[j],
    decreases itens.len(),
{
    broadcast use vstd::multiset::group_multiset_axioms;
    broadcast use vstd::seq_lib::group_to_multiset_ensures;

    if itens.len() == 0 {
        assert(itens.to_multiset() =~= Multiset::empty());
        assert(ficam(itens, marcas).to_multiset() =~= Multiset::empty());
        assert(saem(itens, marcas).to_multiset() =~= Multiset::empty());
    } else {
        let x0 = itens[0];
        let resto = itens.drop_first();
        let mr = marcas.drop_first();
        lei_separacao_conserva(resto, mr);
        let f = ficam(resto, mr);
        let s = saem(resto, mr);
        assert(itens =~= seq![x0] + resto);
        vstd::seq_lib::lemma_multiset_commutative(seq![x0], resto);
        assert(seq![x0].to_multiset() =~= Multiset::empty().insert(x0)) by {
            assert(seq![x0] =~= Seq::<Item>::empty().push(x0));
            assert(Seq::<Item>::empty().to_multiset() =~= Multiset::empty());
        }
        if marcas[0] {
            assert(saem(itens, marcas) == s.push(x0));
            assert(ficam(itens, marcas).to_multiset().add(saem(itens, marcas).to_multiset())
                =~= itens.to_multiset());
            assert forall|x: Item| #[trigger] saem(itens, marcas).contains(x) implies exists|j: int|
                0 <= j < itens.len() && itens[j] == x && marcas[j] by {
                if s.contains(x) {
                    let k = choose|k: int| 0 <= k < resto.len() && resto[k] == x && mr[k];
                    assert(itens[k + 1] == x && marcas[k + 1]);
                } else {
                    assert(itens[0] == x);
                }
            }
            assert forall|x: Item| #[trigger] ficam(itens, marcas).contains(x) implies exists|j: int|
                0 <= j < itens.len() && itens[j] == x && !marcas[j] by {
                assert(f.contains(x));
                let k = choose|k: int| 0 <= k < resto.len() && resto[k] == x && !mr[k];
                assert(itens[k + 1] == x && !marcas[k + 1]);
            }
        } else {
            assert(ficam(itens, marcas) == seq![x0] + f);
            vstd::seq_lib::lemma_multiset_commutative(seq![x0], f);
            assert(ficam(itens, marcas).to_multiset().add(saem(itens, marcas).to_multiset())
                =~= itens.to_multiset());
            assert forall|x: Item| #[trigger] ficam(itens, marcas).contains(x) implies exists|j: int|
                0 <= j < itens.len() && itens[j] == x && !marcas[j] by {
                let i = choose|i: int| 0 <= i < ficam(itens, marcas).len() && ficam(itens, marcas)[i] == x;
                if i == 0 {
                    assert(itens[0] == x);
                } else {
                    assert(f[i - 1] == x);
                    assert(f.contains(x));
                    let k = choose|k: int| 0 <= k < resto.len() && resto[k] == x && !mr[k];
                    assert(itens[k + 1] == x && !marcas[k + 1]);
                }
            }
            assert forall|x: Item| #[trigger] saem(itens, marcas).contains(x) implies exists|j: int|
                0 <= j < itens.len() && itens[j] == x && marcas[j] by {
                assert(s.contains(x));
                let k = choose|k: int| 0 <= k < resto.len() && resto[k] == x && mr[k];
                assert(itens[k + 1] == x && marcas[k + 1]);
            }
        }
    }
}

/// Marca os itens que expiraram, cada um com sua idade.
pub open spec fn marcas_expirados(itens: Seq<Item>, idades: Seq<Validade>) -> Seq<bool> {
    Seq::new(itens.len(), |i: int| expira(itens[i], idades[i]))
}

/// Marca os itens que vencem em menos de um dia, cada um com sua idade.
pub open spec fn marcas_de_hoje(itens: Seq<Item>, idades: Seq<Validade>) -> Seq<bool> {
    Seq::new(itens.len(), |i: int| vai_hoje(itens[i], idades[i]))
}

/// A reordenação da fila (ver `FilaExclusao::reordena_com`) não perde nem repete
/// itens: `todos` e a exclusão diária juntas têm os mesmos itens de antes; os que ficam
/// em `todos` não vencem hoje e os que passam à exclusão diária vencem.
pub proof fn lei_reordenacao(todos: Seq<Item>, proximas: Seq<Item>, idades: Seq<Validade>)
    requires
        idades.len() == todos.len(),
    ensures
        ({
            let m = marcas_de_hoje(todos, idades);
            (ficam(todos, m) + (proximas + saem(todos, m))).to_multiset() == (todos
                + proximas).to_multiset()
        }),
        forall|x: Item|
            #[trigger] ficam(todos, marcas_de_hoje(todos, idades)).contains(x) ==> exists|j: int|
                0 <= j < todos.len() && todos[j] == x && !vai_hoje(todos[j], idades[j]),
        forall|x: Item|
            #[trigger] saem(todos, marcas_de_hoje(todos, idades)).contains(x) ==> exists|j: int|
                0 <= j < todos.len() && todos[j] == x && vai_hoje(todos[j], idades[j]),
{
    broadcast use vstd::multiset::group_multiset_axioms;

    let m = marcas_de_hoje(todos, idades);
    lei_separacao_conserva(todos, m);
    let f = ficam(todos, m);
    let s = saem(todos, m);
    vstd::seq_lib::lemma_multiset_commutative(f, proximas + s);
    vstd::seq_lib::lemma_multiset_commutative(proximas, s);
    vstd::seq_lib::lemma_multiset_commutative(todos, proximas);
    assert((f + (proximas + s)).to_multiset() =~= (todos + proximas).to_multiset());
    assert forall|x: Item| #[trigger] f.contains(x) implies exists|j: int|
        0 <= j < todos.len() && todos[j] == x && !vai_hoje(todos[j], idades[j]) by {
        let j = choose|j: int| 0 <= j < todos.len() && todos[j] == x && !m[j];
        assert(m[j] == vai_hoje(todos[j], idades[j]));
    }
    assert forall|x: Item| #[trigger] s.contains(x) implies exists|j: int|
        0 <= j < todos.len() && todos[j] == x && vai_hoje(todos[j], idades[j]) by {
        let j = choose|j: int| 0 <= j < todos.len() && todos[j] == x && m[j];
        assert(m[j] == vai_hoje(todos[j], idades[j]));
    }
}

/// A limpeza da exclusão diária (ver `FilaExclusao::retira_expirados_com`) só retira
/// itens expirados, mantém todos os que não expiraram e não perde nem repete nenhum.
pub proof fn lei_limpeza(proximas: Seq<Item>, idades: Seq<Validade>)
    requires
        idades.len() == proximas.len(),
    ensures
        ({
            let m = marcas_expirados(proximas, idades);
            ficam(proximas, m).to_multiset().add(saem(proximas, m).to_multiset())
                == proximas.to_multiset()
        }),
        forall|x: Item|
            #[trigger] ficam(proximas, marcas_expirados(proximas, idades)).contains(x)
                ==> exists|j: int|
                0 <= j < proximas.len() && proximas[j] == x && !expira(proximas[j], idades[j]),
        forall|x: Item|
            #[trigger] saem(proximas, marcas_expirados(proximas, idades)).contains(x)
                ==> exists|j: int|
                0 <= j < proximas.len() && proximas[j] == x && expira(proximas[j], idades[j]),
{
    let m = marcas_expirados(proximas, idades);
    lei_separacao_conserva(proximas, m);
    assert forall|x: Item| #[trigger] ficam(proximas, m).contains(x) implies exists|j: int|
        0 <= j < proximas.len() && proximas[j] == x && !expira(proximas[j], idades[j]) by {
        let j = choose|j: int| 0 <= j < proximas.len() && proximas[j] == x && !m[j];
        assert(m[j] == expira(proximas[j], idades[j]));
    }
    assert forall|x: Item| #[trigger] saem(proximas, m).contains(x) implies exists|j: int|
        0 <= j < proximas.len() && proximas[j] == x && expira(proximas[j], idades[j]) by {
        let j = choose|j: int| 0 <= j < proximas.len() && proximas[j] == x && m[j];
        assert(m[j] == expira(proximas[j], idades[j]));
    }
}

/// A contagem da fila (ver `FilaExclusao::total_com`) nunca passa do número de itens, e
/// é igual a ele exatamente quando nenhum item da exclusão diária expirou.
pub proof fn lei_total(proximas: Seq<Item>, idades: Seq<Validade>)
    requires
        idades.len() == proximas.len(),
    ensures
        marcados(marcas_expirados(proximas, idades)) <= proximas.len(),
        marcados(marcas_expirados(proximas, idades)) == 0 <==> forall|j: int|
            0 <= j < proximas.len() ==> !expira(#[trigger] proximas[j], idades[j]),
{
    let m = marcas_expirados(proximas, idades);
    lema_marcados(m);
    assert forall|j: int| 0 <= j < proximas.len() implies m[j] == expira(#[trigger] proximas[j], idades[j]) by {}
}

proof fn lema_marcados(m: Seq<bool>)
    ensures
        marcados(m) <= m.len(),
        marcados(m) == 0 <==> forall|j: int| 0 <= j < m.len() ==> !(#[trigger] m[j]),
    decreases m.len(),
{
    if m.len() > 0 {
        lema_marcados(m.drop_first());
        if marcados(m) == 0 {
            assert forall|j: int| 0 <= j < m.len() implies !(#[trigger] m[j]) by {
                if j > 0 {
                    assert(m[j] == m.drop_first()[j - 1]);
                }
            }
        }
        if forall|j: int| 0 <= j < m.len() ==> !(#[trigger] m[j]) {
            assert forall|j: int| 0 <= j < m.drop_first().len() implies !(#[trigger] m.drop_first()[j]) by {
                assert(m.drop_first()[j] == m[j + 1]);
            }
            assert(!m[0]);
        }
    }
}

/// Tira de `v`, do último ao primeiro, os itens marcados, e os devolve na ordem em que
/// saíram.
fn retira_marcados(v: &mut Vec<Item>, marcas: &Vec<bool>) -> (r: Vec<Item>)
    requires
        marcas@.len() == old(v)@.len(),
    ensures
        final(v)@ == ficam(old(v)@, marcas@),
        r@ == saem(old(v)@, marcas@),
{
    let ghost orig = v@;
    let mut r: Vec<Item> = Vec::new();
    let mut qtd = v.len();
    assert(orig.skip(qtd as int) =~= Seq::<Item>::empty());
    assert(orig.take(qtd as int) =~= orig);
    while qtd > 0
        invariant
            marcas@.len() == orig.len(),
            0 <= qtd <= orig.len(),
            v@ == orig.take(qtd as int) + ficam(orig.skip(qtd as int), marcas@.skip(qtd as int)),
            r@ == saem(orig.skip(qtd as int), marcas@.skip(qtd as int)),
        decreases qtd,
    {
        let i = qtd - 1;
        proof {
            assert(orig.skip(i as int).drop_first() =~= orig.skip(qtd as int));
            assert(marcas@.skip(i as int).drop_first() =~= marcas@.skip(qtd as int));
            assert(orig.skip(i as int)[0] == orig[i as int]);
            assert(marcas@.skip(i as int)[0] == marcas@[i as int]);
            assert(v@[i as int] == orig[i as int]);
        }
        if marcas[i] {
            let item = v.remove(i);
            r.push(item);
            assert(v@ =~= orig.take(i as int) + ficam(orig.skip(i as int), marcas@.skip(i as int)));
        } else {
            assert(v@ =~= orig.take(i as int) + ficam(orig.skip(i as int), marcas@.skip(i as int)));
        }
        qtd = i;
    }
    assert(orig.skip(0) =~= orig);
    assert(marcas@.skip(0) =~= marcas@);
    r
}

/// Lê pelo relógio a idade de cada item de `v`, na ordem, movendo os letreiros.
fn le_idades(v: &mut Vec<Item>) -> (idades: Vec<Validade>)
    ensures
        final(v)@.len() == old(v)@.len(),
        forall|i: int| 0 <= i < old(v)@.len() ==> um_passo(old(v)@[i], #[trigger] final(v)@[i]),
        idades@.len() == old(v)@.len(),
        forall|i: int| 0 <= i < idades@.len() ==> (#[trigger] idades@[i]).bem_formada(),
{
    let ghost orig = v@;
    let mut resto: Vec<Item> = Vec::new();
    std::mem::swap(&mut resto, v);
    let mut idades: Vec<Validade> = Vec::new();
    while resto.len() > 0
        invariant
            v@.len() + resto@.len() == orig.len(),
            resto@ == orig.skip(v@.len() as int),
            forall|i: int| 0 <= i < v@.len() ==> um_passo(orig[i], #[trigger] v@[i]),
            idades@.len() == v@.len(),
            forall|i: int| 0 <= i < idades@.len() ==> (#[trigger] idades@[i]).bem_formada(),
        decreases resto@.len(),
    {
        let ghost antes = resto@;
        let mut it = resto.remove(0);
        assert(it == orig[v@.len() as int]);
        let ghost it0 = it;
        let d = it.idade_atual();
        assert(um_passo(it0, it));
        idades.push(d);
        v.push(it);
        assert(resto@ =~= orig.skip(v@.len() as int));
    }
    idades
}

/// Depois de um passo do letreiro, as validades e por isso as marcas de hoje e as de
/// expirados não mudam.
proof fn lema_marcas_apos_passo(a: Seq<Item>, b: Seq<Item>, idades: Seq<Validade>)
    requires
        a.len() == b.len(),
        forall|i: int| 0 <= i < a.len() ==> um_passo(b[i], #[trigger] a[i]),
    ensures
        marcas_de_hoje(a, idades) == marcas_de_hoje(b, idades),
        marcas_expirados(a, idades) == marcas_expirados(b, idades),
{
    assert(marcas_de_hoje(a, idades) =~= marcas_de_hoje(b, idades)) by {
        assert forall|i: int| 0 <= i < a.len() implies marcas_de_hoje(a, idades)[i] == marcas_de_hoje(b, idades)[i] by {
            assert(um_passo(b[i], a[i]));
        }
    }
    assert(marcas_expirados(a, idades) =~= marcas_expirados(b, idades)) by {
        assert forall|i: int| 0 <= i < a.len() implies marcas_expirados(a, idades)[i] == marcas_expirados(b, idades)[i] by {
            assert(um_passo(b[i], a[i]));
        }
    }
}

/// Fila de exclusão.
pub struct FilaExclusao {
    /// todos os itens da raiz dada.
    pub todos: Vec<Item>,
    /// lista de exclusão nas próximas horas.
    pub proximas_exclusao: Vec<Item>,
}

impl FilaExclusao {
    /// Verifica se não há mais nada a analisar e deletar.
    pub fn vazia(&self) -> (r: bool)
        ensures
            r == (self.todos@.len() == 0 && self.proximas_exclusao@.len() == 0),
    {
        self.todos.is_empty() && self.proximas_exclusao.is_empty()
    }

    /// Há algo na fila de exclusão diária.
    pub fn ha_exclusao_hoje(&self) -> (r: bool)
        ensures
            r == (self.proximas_exclusao@.len() > 0),
    {
        self.proximas_exclusao.len() > 0
    }

    /// Quantidade de itens da fila, descontados os da exclusão diária que expiraram,
    /// cada um com sua idade.
    pub fn total_com(&self, idades: &Vec<Validade>) -> (r: usize)
        requires
            idades@.len() == self.proximas_exclusao@.len(),
            self.todos@.len() + self.proximas_exclusao@.len() <= usize::MAX,
        ensures
            r == self.todos@.len() + self.proximas_exclusao@.len() - marcados(
                marcas_expirados(self.proximas_exclusao@, idades@),
            ),
    {
        let ghost itens = self.proximas_exclusao@;
        let ghost m = marcas_expirados(itens, idades@);
        let contagem = self.todos.len() + self.proximas_exclusao.len();
        let mut desconto: usize = 0;
        let n = self.proximas_exclusao.len();
        let mut qtd = n;
        assert(m.skip(qtd as int) =~= Seq::<bool>::empty());
        while qtd > 0
            invariant
                itens == self.proximas_exclusao@,
                itens.len() == n,
                m == marcas_expirados(itens, idades@),
                idades@.len() == itens.len(),
                0 <= qtd <= itens.len(),
                desconto == marcados(m.skip(qtd as int)),
                desconto <= itens.len() - qtd,
            decreases qtd,
        {
            let i = qtd - 1;
            assert(m.skip(i as int).drop_first() =~= m.skip(qtd as int));
            assert(m.skip(i as int)[0] == m[i as int]);
            if self.proximas_exclusao[i].expira_com(idades[i]) {
                desconto = desconto + 1;
            }
            qtd = i;
        }
        assert(m.skip(0) =~= m);
        contagem - desconto
    }

    /// Quantidade total de itens para exclusão próxima, sem os expirados (pelo relógio;
    /// move os letreiros da exclusão diária).
    pub fn total(&mut self) -> (r: usize)
        requires
            old(self).todos@.len() + old(self).proximas_exclusao@.len() <= usize::MAX,
        ensures
            final(self).todos == old(self).todos,
            final(self).proximas_exclusao@.len() == old(self).proximas_exclusao@.len(),
            forall|i: int|
                0 <= i < old(self).proximas_exclusao@.len() ==> um_passo(
                    old(self).proximas_exclusao@[i],
                    #[trigger] final(self).proximas_exclusao@[i],
                ),
            exists|idades: Seq<Validade>|
                idades.len() == old(self).proximas_exclusao@.len() && (forall|k: int|
                    0 <= k < idades.len() ==> (#[trigger] idades[k]).bem_formada()) && r
                    == old(self).todos@.len()
                    + old(self).proximas_exclusao@.len() - marcados(
                    marcas_expirados(old(self).proximas_exclusao@, idades),
                ),
    {
        let ghost orig = self.proximas_exclusao@;
        let mut idades: Vec<Validade> = Vec::new();
        let mut qtd = self.proximas_exclusao.len();
        while qtd > 0
            invariant
                self.todos == old(self).todos,
                orig == old(self).proximas_exclusao@,
                0 <= qtd <= orig.len(),
                idades@.len() == orig.len() - qtd,
                forall|k: int| 0 <= k < idades@.len() ==> (#[trigger] idades@[k]).bem_formada(),
                self.proximas_exclusao@.len() == orig.len(),
                forall|i: int|
                    0 <= i < orig.len() - qtd ==> um_passo(
                        orig[i],
                        #[trigger] self.proximas_exclusao@[qtd + i],
                    ),
                forall|i: int| 0 <= i < qtd ==> #[trigger] self.proximas_exclusao@[i] == orig[orig.len() - qtd + i],
            decreases qtd,
        {
            let ghost antes = self.proximas_exclusao@;
            let mut item = self.proximas_exclusao.remove(0);
            let ghost item0 = item;
            let idade = item.idade_atual();
            assert(um_passo(item0, item));
            idades.push(idade);
            self.proximas_exclusao.push(item);
            proof {
                assert(item0 == orig[orig.len() - qtd]);
                assert forall|i: int|
                    0 <= i < orig.len() - (qtd - 1) implies um_passo(
                    orig[i],
                    #[trigger] self.proximas_exclusao@[(qtd - 1) + i],
                ) by {
                    if i < orig.len() - qtd {
                        assert(self.proximas_exclusao@[(qtd - 1) + i] == antes[qtd + i]);
                    } else {
                        assert(self.proximas_exclusao@[(qtd - 1) + i] == item);
                    }
                }
                assert forall|i: int| 0 <= i < qtd - 1 implies #[trigger] self.proximas_exclusao@[i]
                    == orig[orig.len() - (qtd - 1) + i] by {
                    assert(self.proximas_exclusao@[i] == antes[i + 1]);
                }
            }
            qtd = qtd - 1;
        }
        proof {
            assert forall|i: int| 0 <= i < orig.len() implies um_passo(
                orig[i],
                #[trigger] self.proximas_exclusao@[i],
            ) by {
                assert(self.proximas_exclusao@[0 + i] == self.proximas_exclusao@[i]);
            }
        }
        let r = self.total_com(&idades);
        proof {
            assert forall|i: int| 0 <= i < orig.len() implies mesmo_arquivo(
                #[trigger] self.proximas_exclusao@[i],
                orig[i],
            ) by {
                assert(um_passo(orig[i], self.proximas_exclusao@[i]));
            }
            assert(marcas_expirados(self.proximas_exclusao@, idades@) =~= marcas_expirados(
                orig,
                idades@,
            ));
        }
        r
    }

    /// Põe na exclusão diária os itens que vencem em menos de um dia, cada um com sua
    /// idade: saem de `todos`, do último ao primeiro, e entram no fim da exclusão diária.
    pub fn reordena_com(&mut self, idades: &Vec<Validade>)
        requires
            idades@.len() == old(self).todos@.len(),
        ensures
            final(self).todos@ == ficam(old(self).todos@, marcas_de_hoje(old(self).todos@, idades@)),
            final(self).proximas_exclusao@ == old(self).proximas_exclusao@ + saem(
                old(self).todos@,
                marcas_de_hoje(old(self).todos@, idades@),
            ),
    {
        let ghost orig = self.todos@;
        let mut marcas: Vec<bool> = Vec::new();
        let mut i: usize = 0;
        while i < self.todos.len()
            invariant
                self.todos@ == orig,
                self.proximas_exclusao@ == old(self).proximas_exclusao@,
                idades@.len() == self.todos@.len(),
                0 <= i <= self.todos@.len(),
                marcas@ == marcas_de_hoje(self.todos@, idades@).take(i as int),
            decreases self.todos@.len() - i,
        {
            let limite = idades[i].nanos_totais() + NANOS_POR_DIA;
            marcas.push(self.todos[i].validade.nanos_totais() < limite);
            assert(marcas_de_hoje(self.todos@, idades@).take(i + 1) =~= marcas_de_hoje(
                self.todos@,
                idades@,
            ).take(i as int).push(marcas_de_hoje(self.todos@, idades@)[i as int]));
            i = i + 1;
        }
        assert(marcas@ =~= marcas_de_hoje(orig, idades@));
        assert(orig == old(self).todos@);
        let saidos = retira_marcados(&mut self.todos, &marcas);
        let ghost base = self.proximas_exclusao@;
        let ghost todos_saidos = saidos@;
        let mut saidos = saidos;
        while saidos.len() > 0
            invariant
                self.proximas_exclusao@ + saidos@ == base + todos_saidos,
                self.todos@ == ficam(old(self).todos@, marcas_de_hoje(old(self).todos@, idades@)),
            decreases saidos.len(),
        {
            let ghost antes = saidos@;
            let ghost prox = self.proximas_exclusao@;
            let item = saidos.remove(0);
            self.proximas_exclusao.push(item);
            assert(self.proximas_exclusao@ + saidos@ =~= prox + antes);
        }
        assert(self.proximas_exclusao@ =~= self.proximas_exclusao@ + saidos@);
    }

    /// Põe na exclusão diária os itens que vencem em menos de um dia, com as idades
    /// lidas pelo relógio (e os letreiros de `todos` movidos).
    pub fn reordenacao_dos_items(&mut self)
        ensures
            exists|antes: Seq<Item>, idades: Seq<Validade>|
                {
                    &&& antes.len() == old(self).todos@.len()
                    &&& idades.len() == antes.len()
                    &&& forall|i: int| 0 <= i < idades.len() ==> (#[trigger] idades[i]).bem_formada()
                    &&& forall|i: int|
                        0 <= i < antes.len() ==> um_passo(old(self).todos@[i], #[trigger] antes[i])
                    &&& final(self).todos@ == ficam(antes, marcas_de_hoje(old(self).todos@, idades))
                    &&& final(self).proximas_exclusao@ == old(self).proximas_exclusao@ + saem(
                        antes,
                        marcas_de_hoje(old(self).todos@, idades),
                    )
                },
    {
        let idades = le_idades(&mut self.todos);
        let ghost antes = self.todos@;
        proof {
            lema_marcas_apos_passo(antes, old(self).todos@, idades@);
        }
        self.reordena_com(&idades);
        assert(antes.len() == old(self).todos@.len() && idades@.len() == antes.len());
    }

    /// Tira da exclusão diária os itens expirados, cada um com sua idade, do último ao
    /// primeiro, e os devolve na ordem em que saíram.
    pub fn retira_expirados_com(&mut self, idades: &Vec<Validade>) -> (r: Vec<Item>)
        requires
            idades@.len() == old(self).proximas_exclusao@.len(),
        ensures
            final(self).todos == old(self).todos,
            final(self).proximas_exclusao@ == ficam(
                old(self).proximas_exclusao@,
                marcas_expirados(old(self).proximas_exclusao@, idades@),
            ),
            r@ == saem(
                old(self).proximas_exclusao@,
                marcas_expirados(old(self).proximas_exclusao@, idades@),
            ),
    {
        let mut marcas: Vec<bool> = Vec::new();
        let mut i: usize = 0;
        while i < self.proximas_exclusao.len()
            invariant
                self.proximas_exclusao@ == old(self).proximas_exclusao@,
                self.todos == old(self).todos,
                idades@.len() == self.proximas_exclusao@.len(),
                0 <= i <= self.proximas_exclusao@.len(),
                marcas@ == marcas_expirados(self.proximas_exclusao@, idades@).take(i as int),
            decreases self.proximas_exclusao@.len() - i,
        {
            marcas.push(self.proximas_exclusao[i].expira_com(idades[i]));
            assert(marcas_expirados(self.proximas_exclusao@, idades@).take(i + 1)
                =~= marcas_expirados(self.proximas_exclusao@, idades@).take(i as int).push(
                marcas_expirados(self.proximas_exclusao@, idades@)[i as int],
            ));
            i = i + 1;
        }
        assert(marcas@ =~= marcas_expirados(old(self).proximas_exclusao@, idades@));
        retira_marcados(&mut self.proximas_exclusao, &marcas)
    }

    /// Tira da exclusão diária os itens expirados, pelo relógio (movendo os letreiros),
    /// e os devolve na ordem em que saíram, do último ao primeiro.
    pub fn limpa_items_expirados(&mut self) -> (r: Vec<Item>)
        ensures
            final(self).todos == old(self).todos,
            exists|antes: Seq<Item>, idades: Seq<Validade>|
                {
                    &&& antes.len() == old(self).proximas_exclusao@.len()
                    &&& idades.len() == antes.len()
                    &&& forall|i: int| 0 <= i < idades.len() ==> (#[trigger] idades[i]).bem_formada()
                    &&& forall|i: int|
                        0 <= i < antes.len() ==> um_passo(
                            old(self).proximas_exclusao@[i],
                            #[trigger] antes[i],
                        )
                    &&& final(self).proximas_exclusao@ == ficam(
                        antes,
                        marcas_expirados(old(self).proximas_exclusao@, idades),
                    )
                    &&& r@ == saem(antes, marcas_expirados(old(self).proximas_exclusao@, idades))
                },
    {
        let idades = le_idades(&mut self.proximas_exclusao);
        let ghost antes = self.proximas_exclusao@;
        proof {
            lema_marcas_apos_passo(antes, old(self).proximas_exclusao@, idades@);
        }
        let r = self.retira_expirados_com(&idades);
        assert(antes.len() == old(self).proximas_exclusao@.len() && idades@.len() == antes.len());
        r
    }
}

} // verus!
