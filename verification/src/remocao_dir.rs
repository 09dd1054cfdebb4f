use vstd::prelude::*;

verus! {

broadcast use vstd::std_specs::vec::axiom_vec_index_decreases;

/// Uma entrada do sistema de arquivos, com o conteúdo dos diretórios: um arquivo, um
/// diretório com suas entradas, ou algo que não é nem um nem outro.
pub enum Entrada {
    Arquivo,
    Diretorio(Vec<Entrada>),
    Outro,
}

/// Quantos arquivos há na entrada, contando os de todos os subdiretórios; o que não é
/// arquivo nem diretório (as "variantes" de arquivo: linques quebrados, filas, soquetes)
/// conta como arquivo.
pub open spec fn arquivos(e: Entrada) -> nat
    decreases e, 0nat,
{
    match e {
        Entrada::Arquivo => 1,
        Entrada::Diretorio(v) => arquivos_ate(v, v.len() as nat),
        Entrada::Outro => 1,
    }
}

/// Quantos arquivos há nas `n` primeiras entradas de `v`.
pub open spec fn arquivos_ate(v: Vec<Entrada>, n: nat) -> nat
    decreases v, n,
{
    if n == 0 || n > v.len() {
        0
    } else {
        arquivos_ate(v, (n - 1) as nat) + arquivos(v[n - 1])
    }
}

/// O menor de dois naturais.
pub open spec fn minimo(a: nat, b: nat) -> nat {
    if a <= b {
        a
    } else {
        b
    }
}

/// Um diretório está vazio se não tem entradas; o que não é diretório não se pode
/// listar e conta como vazio.
pub fn diretorio_vazio(e: &Entrada) -> (r: bool)
    ensures
        r == (match *e {
            Entrada::Diretorio(v) => v@.len() == 0,
            _ => true,
        }),
{
    match e {
        Entrada::Diretorio(v) => v.len() == 0,
        _ => true,
    }
}

/// Soma ao contador os arquivos da entrada, parando em 255.
fn sem_arquivos(e: &Entrada, contador: &mut u8)
    ensures
        *final(contador) as nat == minimo(255, *old(contador) as nat + arquivos(*e)),
    decreases *e,
{
    match e {
        Entrada::Diretorio(v) => {
            let ghost c0: nat = *contador as nat;
            let mut i: usize = 0;
            while i < v.len()
                invariant
                    0 <= i <= v.len(),
                    *e == Entrada::Diretorio(*v),
                    *contador as nat == minimo(255, c0 + arquivos_ate(*v, i as nat)),
                decreases v.len() - i,
            {
                proof {
                    assert(decreases_to!(*e => (*e)->Diretorio_0));
                    assert(decreases_to!(*v => v[i as int]));
                    assert(decreases_to!(*e => v[i as int]));
                }
                sem_arquivos(&v[i], contador);
                i = i + 1;
            }
        },
        Entrada::Arquivo | Entrada::Outro => {
            if *contador <= u8::MAX - 1 {
                *contador += 1;
            }
        },
    }
}

/// A entrada não tem nenhum arquivo (nem variante de arquivo), por mais que tenha
/// diretórios (vazios) dentro de diretórios.
pub fn dir_sem_arquivos(e: &Entrada) -> (r: bool)
    ensures
        r == (arquivos(*e) == 0),
{
    let mut contador: u8 = 0;
    sem_arquivos(e, &mut contador);
    contador == 0
}

/// Um diretório vazio não tem arquivos.
pub proof fn lei_vazio_sem_arquivos(e: Entrada)
    requires
        e is Diretorio,
        e->Diretorio_0@.len() == 0,
    ensures
        arquivos(e) == 0,
{
}

} // verus!
