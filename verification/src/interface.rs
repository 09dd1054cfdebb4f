use vstd::prelude::*;
use crate::texto::{acrescenta, caracteres, recorte, texto_de};
use crate::tempo::Validade;
use crate::letreiro::{bytes_de, fatia_bytes, fronteira, lema_fronteira_unica, posicao_do_byte};

verus! {

/// Tecla que encerra a interface: "s" ou "q", maiúsculas ou minúsculas.
pub open spec fn e_tecla_de_saida(c: char) -> bool {
    c == 's' || c == 'S' || c == 'q' || c == 'Q'
}

/// A tecla encerra a interface (ver `e_tecla_de_saida`).
pub fn tecla_de_saida(c: char) -> (r: bool)
    ensures
        r == e_tecla_de_saida(c),
{
    c == 's' || c == 'S' || c == 'q' || c == 'Q'
}

/// O que resta do temporizador da interface: o prazo menos o tempo decorrido, ou zero
/// se o prazo já passou.
pub fn restante_do_temporizador(prazo: Validade, decorrido: Validade) -> (r: Validade)
    requires
        prazo.bem_formada(),
    ensures
        r.bem_formada(),
        r.em_nanos() == (if decorrido.em_nanos() <= prazo.em_nanos() {
            prazo.em_nanos() - decorrido.em_nanos()
        } else {
            0
        }),
{
    let p = prazo.nanos_totais();
    let d = decorrido.nanos_totais();
    if d <= p {
        Validade::de_nanos(p - d)
    } else {
        Validade::de_nanos(0)
    }
}

/// Depois de desenhar a fila, a interface continua se não se pediu saída e, quando não
/// há exclusão para hoje, o tempo decorrido ainda não passou do prazo.
pub open spec fn continua_spec(saida_pedida: bool, ha_exclusao_hoje: bool, decorrido: Validade, prazo: Validade) -> bool {
    !saida_pedida && (ha_exclusao_hoje || decorrido.em_nanos() <= prazo.em_nanos())
}

/// Decide se a interface continua (ver `continua_spec`).
pub fn continua(saida_pedida: bool, ha_exclusao_hoje: bool, decorrido: Validade, prazo: Validade) -> (r: bool)
    ensures
        r == continua_spec(saida_pedida, ha_exclusao_hoje, decorrido, prazo),
{
    if saida_pedida {
        return false;
    }
    if !ha_exclusao_hoje && decorrido.nanos_totais() > prazo.nanos_totais() {
        return false;
    }
    true
}

/// Uma saída pedida sempre encerra a interface, haja ou não exclusão para hoje e qualquer
/// que seja o tempo; sem saída pedida, com exclusão para hoje a interface continua
/// sempre, e sem ela continua exatamente enquanto o tempo decorrido não passa do prazo.
pub proof fn lei_continua(ha_exclusao_hoje: bool, decorrido: Validade, prazo: Validade)
    ensures
        !continua_spec(true, ha_exclusao_hoje, decorrido, prazo),
        continua_spec(false, true, decorrido, prazo),
        continua_spec(false, false, decorrido, prazo) <==> decorrido.segundos * 1_000_000_000
            + decorrido.nanos <= prazo.segundos * 1_000_000_000 + prazo.nanos,
{
}

/// Margem, em colunas, do aviso de remoção.
pub const MARGEM: i32 = 19;

/// O nome mostrado no aviso de remoção, entre aspas: inteiro, se o seu tamanho em
/// bytes (truncado a `i32`) não passa da largura da tela; senão, os primeiros `largura - MARGEM` bytes,
/// seguidos de "...". Não há nome quando o corte não cai numa fronteira de caractere.
pub open spec fn rotulo_de_remocao_spec(nome: Seq<char>, largura: i32) -> Option<Seq<char>> {
    if ((bytes_de(nome) as usize) as i32) > largura {
        if largura >= MARGEM {
            match fatia_bytes(nome, 0, (largura - MARGEM) as nat) {
                Some(t) => Some("\""@ + t + "\"..."@),
                None => None,
            }
        } else {
            None
        }
    } else {
        Some("\""@ + nome + "\""@)
    }
}

/// O nome mostrado no aviso de remoção (ver `rotulo_de_remocao_spec`); `None` quando
/// o corte não cai numa fronteira de caractere ou a largura é menor que a margem.
pub fn rotulo_de_remocao(nome: &str, largura: i32) -> (r: Option<String>)
    ensures
        r is None <==> rotulo_de_remocao_spec(nome@, largura) is None,
        r matches Some(t) ==> Some(t@) == rotulo_de_remocao_spec(nome@, largura),
{
    let cs = caracteres(nome);
    let comprimento = nome.len() as i32;
    let mut r = caracteres("\"");
    if comprimento > largura {
        if largura < MARGEM {
            return None;
        }
        let corte = (largura - MARGEM) as usize;
        match posicao_do_byte(&cs, corte) {
            Some(j) => {
                proof {
                    assert(fronteira(cs@, 0, 0)) by {
                        assert(cs@.take(0) =~= Seq::<char>::empty());
                    }
                    let ci = choose|x: int| fronteira(cs@, 0, x);
                    let cj = choose|x: int| fronteira(cs@, corte as nat, x);
                    lema_fronteira_unica(cs@, 0, 0, ci);
                    lema_fronteira_unica(cs@, corte as nat, j as int, cj);
                }
                let t = recorte(&cs, 0, j);
                acrescenta(&mut r, &t);
                acrescenta(&mut r, &caracteres("\"..."));
                Some(texto_de(&r))
            },
            None => None,
        }
    } else {
        acrescenta(&mut r, &cs);
        acrescenta(&mut r, &caracteres("\""));
        Some(texto_de(&r))
    }
}

} // verus!
