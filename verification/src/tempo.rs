use vstd::prelude::*;
use std::time::{Instant, SystemTime};

verus! {

/// Nanossegundos num segundo.
pub const NANOS_POR_SEGUNDO: u32 = 1_000_000_000;

/// A maior duração que se representa: `u64::MAX` segundos e 999 999 999 nanossegundos.
pub const NANOS_MAXIMOS: u128 = 18_446_744_073_709_551_615_999_999_999;

/// Uma duração: segundos inteiros mais a fração em nanossegundos.
#[derive(Clone, Copy, Debug, PartialEq, Eq, Structural)]
pub struct Validade {
    pub segundos: u64,
    pub nanos: u32,
}

impl Validade {
    /// A fração cabe num segundo.
    pub open spec fn bem_formada(self) -> bool {
        self.nanos < NANOS_POR_SEGUNDO
    }

    /// A duração inteira em nanossegundos.
    pub open spec fn em_nanos(self) -> int {
        self.segundos * 1_000_000_000 + self.nanos
    }

    /// A duração de `n` nanossegundos.
    pub fn de_nanos(n: u128) -> (v: Validade)
        requires
            n <= NANOS_MAXIMOS,
        ensures
            v.bem_formada(),
            v.em_nanos() == n,
    {
        let segundos = (n / 1_000_000_000) as u64;
        let nanos = (n % 1_000_000_000) as u32;
        Validade { segundos, nanos }
    }

    /// A duração de `s` segundos.
    pub fn de_segundos(s: u64) -> (v: Validade)
        ensures
            v.bem_formada(),
            v.segundos == s,
            v.nanos == 0,
    {
        Validade { segundos: s, nanos: 0 }
    }

    /// A duração em nanossegundos, como inteiro de 128 bits.
    pub fn nanos_totais(&self) -> (n: u128)
        ensures
            n == self.em_nanos(),
    {
        self.segundos as u128 * 1_000_000_000 + self.nanos as u128
    }
}

#[verifier::external_type_specification]
#[verifier::external_body]
pub struct ExInstant(Instant);

#[verifier::external_type_specification]
#[verifier::external_body]
pub struct ExSystemTime(SystemTime);

/// Lê o relógio monotônico (`Instant::now`). Nada se promete do valor.
#[verifier::external_body]
pub(crate) fn instante_agora() -> (r: Instant) {
    Instant::now()
}

/// Quanto tempo passou desde `i` (`Instant::elapsed`), em segundos e nanossegundos.
/// O valor depende do relógio; promete-se só a fração abaixo de um segundo, como a
/// documentação de `Duration::subsec_nanos` diz.
#[verifier::external_body]
pub(crate) fn decorrido_desde(i: &Instant) -> (r: Validade)
    ensures
        r.bem_formada(),
{
    let d = i.elapsed();
    Validade { segundos: d.as_secs(), nanos: d.subsec_nanos() }
}

/// A distância entre o relógio do sistema e `t` (`SystemTime::elapsed`; quando `t`
/// está no futuro, a duração do erro, `SystemTimeError::duration`). O valor depende do
/// relógio; promete-se só a fração abaixo de um segundo.
#[verifier::external_body]
pub(crate) fn idade_de(t: &SystemTime) -> (r: Validade)
    ensures
        r.bem_formada(),
{
    let d = match t.elapsed() {
        Ok(d) => d,
        Err(e) => e.duration(),
    };
    Validade { segundos: d.as_secs(), nanos: d.subsec_nanos() }
}

/// Milissegundos inteiros de uma duração, truncados a 64 bits.
pub open spec fn milissegundos_de(d: Validade) -> u64 {
    (d.segundos * 1000 + d.nanos / 1_000_000) as u64
}

/// Milissegundos inteiros de `d` (como `Duration::as_millis`), truncados a 64 bits.
pub fn milissegundos(d: Validade) -> (r: u64)
    ensures
        r == milissegundos_de(d),
{
    let total: u128 = d.segundos as u128 * 1000 + (d.nanos / 1_000_000) as u128;
    total as u64
}

/// Cronômetro: marca o tempo desde que foi criado ou zerado.
pub struct Cronometro {
    ti: Instant,
}

impl Cronometro {
    /// O instante de onde a contagem parte.
    pub closed spec fn inicio(&self) -> Instant {
        self.ti
    }

    /// Começa a contar agora.
    pub fn cria() -> (r: Self) {
        Cronometro { ti: instante_agora() }
    }

    /// Volta a contar do zero, a partir de `agora`.
    pub fn reinicia(&mut self, agora: Instant)
        ensures
            final(self).inicio() == agora,
    {
        self.ti = agora;
    }

    /// Volta a contar do zero, agora (ver `reinicia`).
    pub fn reseta(&mut self) {
        self.reinicia(instante_agora());
    }

    /// Milissegundos desde a criação ou o último zeramento.
    pub fn marca(&self) -> (r: u64)
        ensures
            exists|d: Validade| d.bem_formada() && r == milissegundos_de(d),
    {
        let d = decorrido_desde(&self.ti);
        milissegundos(d)
    }
}

/// Temporizador: conta até uma meta e daí em diante fica esgotado.
pub struct Temporizador {
    inicio: Validade,
    cronometro: Instant,
    esgotado: bool,
}

impl Temporizador {
    /// A meta.
    pub closed spec fn meta_spec(&self) -> Validade {
        self.inicio
    }

    /// Já chegou à meta alguma vez.
    pub closed spec fn esgotado_spec(&self) -> bool {
        self.esgotado
    }

    /// Um temporizador que conta até `inicio`, ainda não esgotado.
    pub fn cria(inicio: Validade) -> (r: Self)
        ensures
            r.meta_spec() == inicio,
            !r.esgotado_spec(),
    {
        Temporizador { inicio, cronometro: instante_agora(), esgotado: false }
    }

    /// Se o temporizador fica esgotado quando `passado` decorreu.
    pub open spec fn esgota_apos(&self, passado: Validade) -> bool {
        self.esgotado_spec() || passado.em_nanos() >= self.meta_spec().em_nanos()
    }

    /// O que o temporizador responde quando `passado` decorreu.
    pub open spec fn resposta_apos(&self, passado: Validade) -> u64 {
        if self.esgota_apos(passado) {
            self.meta_spec().segundos
        } else {
            milissegundos_de(passado)
        }
    }

    /// O passo do temporizador quando `passado` decorreu: atingida a meta, ele se
    /// esgota e passa a responder a meta em segundos; antes disso, os milissegundos
    /// decorridos.
    pub fn decorrido_apos(&mut self, passado: Validade) -> (r: u64)
        ensures
            final(self).meta_spec() == old(self).meta_spec(),
            final(self).esgotado_spec() == old(self).esgota_apos(passado),
            r == old(self).resposta_apos(passado),
    {
        if passado.nanos_totais() >= self.inicio.nanos_totais() {
            self.esgotado = true;
        }
        if self.esgotado {
            return self.inicio.segundos;
        }
        milissegundos(passado)
    }

    /// Lê o relógio e dá o passo de `decorrido_apos`.
    pub fn decorrido(&mut self) -> (r: u64)
        ensures
            final(self).meta_spec() == old(self).meta_spec(),
            exists|d: Validade|
                d.bem_formada() && final(self).esgotado_spec() == old(self).esgota_apos(d) && r
                    == old(self).resposta_apos(d),
    {
        let passado = decorrido_desde(&self.cronometro);
        self.decorrido_apos(passado)
    }

    /// Um milésimo do que `decorrido` responde.
    pub fn decorrido_seg(&mut self) -> (r: u64)
        ensures
            final(self).meta_spec() == old(self).meta_spec(),
            exists|d: Validade|
                d.bem_formada() && final(self).esgotado_spec() == old(self).esgota_apos(d) && r
                    == old(self).resposta_apos(d) / 1000,
    {
        self.decorrido() / 1000
    }

    /// A meta, em segundos.
    pub fn meta(&self) -> (r: u64)
        ensures
            r == self.meta_spec().segundos,
    {
        self.inicio.segundos
    }
}

/// Um temporizador que se esgotou continua esgotado: depois de um passo em que se
/// esgota (`t2` é `t1` depois de `decorrido_apos(d1)`), qualquer passo seguinte o
/// mantém esgotado e responde a meta em segundos. E o passo em que o tempo decorrido
/// alcança a meta o esgota.
pub proof fn lei_temporizador(t1: Temporizador, t2: Temporizador, d1: Validade, d2: Validade)
    requires
        t2.meta_spec() == t1.meta_spec(),
        t2.esgotado_spec() == t1.esgota_apos(d1),
    ensures
        d1.em_nanos() >= t1.meta_spec().em_nanos() ==> t1.esgota_apos(d1),
        t1.esgota_apos(d1) ==> t2.esgota_apos(d2) && t2.resposta_apos(d2)
            == t1.meta_spec().segundos,
{
}

/// O temporizador, lido como valor lógico, diz se está esgotado.
impl std::ops::Deref for Temporizador {
    type Target = bool;

    fn deref(&self) -> (r: &bool)
        ensures
            *r == self.esgotado_spec(),
    {
        &self.esgotado
    }
}

} // verus!
