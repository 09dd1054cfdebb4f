use vstd::prelude::*;
use crate::texto::{iguais, texto_de};

verus! {

/// Os pedaços de `s` entre quebras de linha: há sempre um a mais que quebras.
pub open spec fn pedacos(s: Seq<char>) -> Seq<Seq<char>>
    decreases s.len(),
{
    if s.len() == 0 {
        seq![seq![]]
    } else {
        let p = pedacos(s.drop_last());
        if s.last() == '\n' {
            p.push(seq![])
        } else {
            p.update(p.len() - 1, p.last().push(s.last()))
        }
    }
}

/// `l` sem o retorno de carro que a fecha, se houver.
pub open spec fn sem_cr(l: Seq<char>) -> Seq<char> {
    if l.len() > 0 && l.last() == '\r' {
        l.drop_last()
    } else {
        l
    }
}

/// As linhas de `s`, como `str::lines`: separadas por "\n" ou "\r\n", sem a última se
/// ela for vazia.
pub open spec fn linhas(s: Seq<char>) -> Seq<Seq<char>> {
    let p = pedacos(s);
    let q = if p.last().len() == 0 {
        p.drop_last()
    } else {
        p
    };
    q.map_values(|l: Seq<char>| sem_cr(l))
}

proof fn lema_pedacos_nao_vazio(s: Seq<char>)
    ensures
        pedacos(s).len() >= 1,
    decreases s.len(),
{
    if s.len() > 0 {
        lema_pedacos_nao_vazio(s.drop_last());
    }
}

/// As vistas de uma lista de sequências de caracteres.
pub open spec fn vistas(v: Seq<Vec<char>>) -> Seq<Seq<char>> {
    v.map_values(|x: Vec<char>| x@)
}

/// Divide `s` nos pedaços de linha, ainda sem tirar o "\r" final de cada um.
pub fn pedacos_de_linha(s: &Vec<char>) -> (r: Vec<Vec<char>>)
    ensures
        ({
            let p = pedacos(s@);
            vistas(r@) == if p.last().len() == 0 {
                p.drop_last()
            } else {
                p
            }
        }),
{
    let mut acc: Vec<Vec<char>> = Vec::new();
    let mut cur: Vec<char> = Vec::new();
    let mut i: usize = 0;
    assert(s@.take(0) =~= Seq::<char>::empty());
    while i < s.len()
        invariant
            0 <= i <= s.len(),
            vistas(acc@).push(cur@) == pedacos(s@.take(i as int)),
        decreases s.len() - i,
    {
        proof {
            assert(s@.take(i + 1).drop_last() =~= s@.take(i as int));
            assert(s@.take(i + 1).last() == s@[i as int]);
            lema_pedacos_nao_vazio(s@.take(i as int));
        }
        let ghost antes = vistas(acc@);
        let c = s[i];
        if c == '\n' {
            acc.push(cur);
            cur = Vec::new();
            assert(vistas(acc@) =~= antes.push(vistas(acc@).last()));
        } else {
            cur.push(c);
        }
        assert(vistas(acc@).push(cur@) =~= pedacos(s@.take(i + 1)));
        i = i + 1;
    }
    assert(s@.take(s.len() as int) =~= s@);
    let ghost antes = vistas(acc@);
    if cur.len() > 0 {
        acc.push(cur);
        assert(vistas(acc@) =~= antes.push(vistas(acc@).last()));
    } else {
        assert(antes.push(cur@).drop_last() =~= antes);
    }
    acc
}

/// Tira o "\r" final.
pub fn sem_cr_exec(l: &Vec<char>) -> (r: Vec<char>)
    ensures
        r@ == sem_cr(l@),
{
    let mut r: Vec<char> = Vec::new();
    let n = if l.len() > 0 && l[l.len() - 1] == '\r' {
        l.len() - 1
    } else {
        l.len()
    };
    let mut i: usize = 0;
    while i < n
        invariant
            0 <= i <= n <= l.len(),
            r@ == l@.take(i as int),
        decreases n - i,
    {
        r.push(l[i]);
        assert(l@.take(i + 1) =~= l@.take(i as int).push(l@[i as int]));
        i = i + 1;
    }
    assert(l@.take(n as int) =~= sem_cr(l@));
    r
}

/// Índice da chave `k` em `ks`.
pub open spec fn indice_de(ks: Seq<Seq<char>>, k: Seq<char>) -> int {
    choose|i: int| 0 <= i < ks.len() && ks[i] == k
}

/// As chaves não se repetem.
pub open spec fn distintas(ks: Seq<Seq<char>>) -> bool {
    forall|i: int, j: int| 0 <= i < j < ks.len() ==> ks[i] != ks[j]
}

/// O dicionário formado pelas chaves `ks` e os valores `vs`, par a par.
pub open spec fn como_mapa(ks: Seq<Seq<char>>, vs: Seq<Seq<Seq<char>>>) -> Map<
    Seq<char>,
    Seq<Seq<char>>,
> {
    Map::new(|k: Seq<char>| ks.contains(k), |k: Seq<char>| vs[indice_de(ks, k)])
}

/// Com chaves distintas, a posição de cada chave é a sua própria.
pub proof fn lema_indice_de(ks: Seq<Seq<char>>, i: int)
    requires
        distintas(ks),
        0 <= i < ks.len(),
    ensures
        indice_de(ks, ks[i]) == i,
{
    let k = ks[i];
    assert(ks.contains(k));
    let j = indice_de(ks, k);
    assert(0 <= j < ks.len() && ks[j] == k);
    if j < i {
        assert(ks[j] != ks[i]);
    }
    if i < j {
        assert(ks[i] != ks[j]);
    }
}

/// Seções de configuração: cada cabeçalho com suas linhas, sem cabeçalho repetido.
pub struct Secoes {
    pub chaves: Vec<Vec<char>>,
    pub valores: Vec<Vec<Vec<char>>>,
}

impl Secoes {
    /// Há um valor para cada chave, e as chaves são distintas.
    pub open spec fn bem_formada(&self) -> bool {
        &&& self.chaves@.len() == self.valores@.len()
        &&& distintas(vistas(self.chaves@))
    }

    /// As seções como dicionário.
    pub open spec fn mapa(&self) -> Map<Seq<char>, Seq<Seq<char>>> {
        como_mapa(vistas(self.chaves@), self.valores@.map_values(|v: Vec<Vec<char>>| vistas(v@)))
    }

    /// Nenhuma seção.
    pub fn nova() -> (r: Secoes)
        ensures
            r.bem_formada(),
            r.mapa() == Map::<Seq<char>, Seq<Seq<char>>>::empty(),
    {
        let r = Secoes { chaves: Vec::new(), valores: Vec::new() };
        assert(r.mapa() =~= Map::<Seq<char>, Seq<Seq<char>>>::empty());
        r
    }

    /// A posição da seção de nome `k`, se existe.
    pub fn procura(&self, k: &Vec<char>) -> (r: Option<usize>)
        requires
            self.bem_formada(),
        ensures
            r is None <==> !self.mapa().contains_key(k@),
            r matches Some(i) ==> i < self.chaves@.len() && self.chaves@[i as int]@ == k@,
    {
        let mut i: usize = 0;
        while i < self.chaves.len()
            invariant
                0 <= i <= self.chaves@.len(),
                forall|j: int| 0 <= j < i ==> self.chaves@[j]@ != k@,
            decreases self.chaves.len() - i,
        {
            if iguais(&self.chaves[i], k) {
                assert(vistas(self.chaves@)[i as int] == k@);
                return Some(i);
            }
            i = i + 1;
        }
        proof {
            if vistas(self.chaves@).contains(k@) {
                let j = choose|j: int| 0 <= j < vistas(self.chaves@).len() && vistas(self.chaves@)[j] == k@;
                assert(self.chaves@[j]@ == k@);
            }
        }
        None
    }

    /// Abre a seção `k`, vazia (esvazia-a, se já existia).
    pub fn abre(&mut self, k: Vec<char>)
        requires
            old(self).bem_formada(),
        ensures
            final(self).bem_formada(),
            final(self).mapa() == old(self).mapa().insert(k@, seq![]),
    {
        let ghost m0 = self.mapa();
        let ghost ks0 = vistas(self.chaves@);
        match self.procura(&k) {
            Some(i) => {
                let ghost vs0 = self.valores@;
                self.valores.set(i, Vec::new());
                proof {
                    lema_indice_de(ks0, i as int);
                    assert forall|x: Seq<char>| #[trigger] self.mapa().contains_key(x) implies self.mapa()[x]
                        == m0.insert(k@, seq![])[x] by {
                        let j = indice_de(ks0, x);
                        assert(0 <= j < ks0.len() && ks0[j] == x);
                        lema_indice_de(ks0, j);
                        if x != k@ {
                            assert(j != i);
                        }
                    }
                    assert(self.mapa() =~= m0.insert(k@, seq![]));
                }
            },
            None => {
                let ghost vs0 = self.valores@;
                self.chaves.push(k);
                self.valores.push(Vec::new());
                proof {
                    let ks = vistas(self.chaves@);
                    assert(ks =~= ks0.push(k@));
                    assert(!ks0.contains(k@));
                    assert(distintas(ks)) by {
                        assert forall|a: int, b: int| 0 <= a < b < ks.len() implies ks[a] != ks[b] by {
                            if b == ks.len() - 1 {
                                assert(ks0[a] == ks[a]);
                            }
                        }
                    }
                    assert forall|x: Seq<char>| #[trigger] self.mapa().contains_key(x) implies self.mapa()[x]
                        == m0.insert(k@, seq![])[x] by {
                        let j = indice_de(ks, x);
                        assert(0 <= j < ks.len() && ks[j] == x);
                        lema_indice_de(ks, j);
                        if x != k@ {
                            assert(j < ks0.len());
                            assert(ks0[j] == x);
                            lema_indice_de(ks0, j);
                        } else {
                            assert(j == ks.len() - 1);
                        }
                    }
                    assert forall|x: Seq<char>| m0.insert(k@, seq![]).contains_key(x) implies #[trigger] self.mapa().contains_key(x) by {
                        if x != k@ {
                            let j = choose|j: int| 0 <= j < ks0.len() && ks0[j] == x;
                            assert(ks[j] == x);
                        } else {
                            assert(ks[ks.len() - 1] == x);
                        }
                    }
                    assert(self.mapa() =~= m0.insert(k@, seq![]));
                }
            },
        }
    }

    /// Acrescenta a linha `l` à seção `k`, que já existe.
    pub fn acrescenta(&mut self, k: &Vec<char>, l: Vec<char>)
        requires
            old(self).bem_formada(),
            old(self).mapa().contains_key(k@),
        ensures
            final(self).bem_formada(),
            final(self).mapa() == old(self).mapa().insert(k@, old(self).mapa()[k@].push(l@)),
    {
        let ghost m0 = self.mapa();
        let ghost ks0 = vistas(self.chaves@);
        let i = self.procura(k).unwrap();
        let ghost vs0 = self.valores@;
        let mut v = self.valores.remove(i);
        v.push(l);
        self.valores.insert(i, v);
        proof {
            lema_indice_de(ks0, i as int);
            assert(self.valores@ =~= vs0.update(i as int, self.valores@[i as int]));
            assert(vistas(self.valores@[i as int]@) =~= vistas(vs0[i as int]@).push(l@));
            assert forall|x: Seq<char>| #[trigger] self.mapa().contains_key(x) implies self.mapa()[x]
                == m0.insert(k@, m0[k@].push(l@))[x] by {
                let j = indice_de(ks0, x);
                assert(0 <= j < ks0.len() && ks0[j] == x);
                lema_indice_de(ks0, j);
                if x != k@ {
                    assert(j != i);
                }
            }
            assert(self.mapa() =~= m0.insert(k@, m0[k@].push(l@)));
        }
    }
}

} // verus!
