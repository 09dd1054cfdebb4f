use vstd::prelude::*;
use crate::tempo::{Validade, NANOS_MAXIMOS};

verus! {

/// A soma das durações, em nanossegundos.
pub open spec fn soma_nanos(ds: Seq<Validade>) -> int
    decreases ds.len(),
{
    if ds.len() == 0 {
        0
    } else {
        soma_nanos(ds.drop_last()) + ds.last().em_nanos()
    }
}

/// As somas parciais crescem.
proof fn lema_soma_cresce(ds: Seq<Validade>, i: int)
    requires
        0 <= i <= ds.len(),
        forall|k: int| 0 <= k < ds.len() ==> (#[trigger] ds[k]).bem_formada(),
    ensures
        0 <= soma_nanos(ds.take(i)) <= soma_nanos(ds),
    decreases ds.len() - i,
{
    if i < ds.len() {
        lema_soma_cresce(ds, i + 1);
        assert(ds.take(i + 1).drop_last() =~= ds.take(i));
    } else {
        assert(ds.take(i) =~= ds);
    }
    lema_soma_nao_negativa(ds.take(i));
}

proof fn lema_soma_nao_negativa(ds: Seq<Validade>)
    ensures
        soma_nanos(ds) >= 0,
    decreases ds.len(),
{
    if ds.len() > 0 {
        lema_soma_nao_negativa(ds.drop_last());
    }
}

/// A duração média: a soma das durações dividida pela quantidade, arredondada para
/// baixo no nanossegundo. Exige ao menos uma duração, uma quantidade que caiba em 32
/// bits e uma soma representável.
pub fn tempo_medio(duracoes: &Vec<Validade>) -> (r: Validade)
    requires
        duracoes@.len() > 0,
        duracoes@.len() <= u32::MAX,
        forall|k: int| 0 <= k < duracoes@.len() ==> (#[trigger] duracoes@[k]).bem_formada(),
        soma_nanos(duracoes@) <= NANOS_MAXIMOS,
    ensures
        r.bem_formada(),
        r.em_nanos() == soma_nanos(duracoes@) / (duracoes@.len() as int),
{
    let mut soma: u128 = 0;
    let mut i: usize = 0;
    while i < duracoes.len()
        invariant
            0 <= i <= duracoes@.len(),
            forall|k: int| 0 <= k < duracoes@.len() ==> (#[trigger] duracoes@[k]).bem_formada(),
            soma_nanos(duracoes@) <= NANOS_MAXIMOS,
            soma == soma_nanos(duracoes@.take(i as int)),
        decreases duracoes@.len() - i,
    {
        proof {
            lema_soma_cresce(duracoes@, i + 1);
            assert(duracoes@.take(i + 1).drop_last() =~= duracoes@.take(i as int));
        }
        soma = soma + duracoes[i].nanos_totais();
        i = i + 1;
    }
    assert(duracoes@.take(duracoes@.len() as int) =~= duracoes@);
    let n = duracoes.len() as u128;
    Validade::de_nanos(soma / n)
}

} // verus!
