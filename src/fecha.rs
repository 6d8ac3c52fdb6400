//! Calendar dates and the period keys that the rollup groups by.

use vstd::prelude::*;
use vstd::string::StringExecFns;
use crate::error::LedgerError;

verus! {

/// A calendar date of the proleptic Gregorian calendar.
#[derive(Debug, Clone, Copy, PartialEq, Eq, Structural)]
pub struct Fecha {
    pub anio: i64,
    pub mes: i64,
    pub dia: i64,
}

/// Grouping of a report: by day, by ISO week, by month, or one overall bucket.
#[derive(Debug, Clone, Copy, PartialEq, Eq, Structural)]
pub enum Agrupacion {
    Dia,
    Semana,
    Mes,
    Total,
}

/// Leap year of the Gregorian calendar.
pub open spec fn bisiesto(y: int) -> bool {
    (y % 4 == 0 && y % 100 != 0) || y % 400 == 0
}

/// Number of days of month `m` of year `y`.
pub open spec fn dias_en_mes(y: int, m: int) -> int {
    if m == 2 {
        if bisiesto(y) {
            29
        } else {
            28
        }
    } else if m == 4 || m == 6 || m == 9 || m == 11 {
        30
    } else {
        31
    }
}

/// A real date between the years 1 and 9999.
pub open spec fn fecha_valida(f: Fecha) -> bool {
    &&& 1 <= f.anio <= 9999
    &&& 1 <= f.mes <= 12
    &&& 1 <= f.dia <= dias_en_mes(f.anio as int, f.mes as int)
}

/// The date as the number `yyyymmdd`; it orders dates chronologically.
pub open spec fn codigo_dia(f: Fecha) -> int {
    f.anio * 10000 + f.mes * 100 + f.dia
}

/// The day after `f`.
pub open spec fn dia_siguiente(f: Fecha) -> Fecha {
    if f.dia < dias_en_mes(f.anio as int, f.mes as int) {
        Fecha { dia: (f.dia + 1) as i64, ..f }
    } else if f.mes < 12 {
        Fecha { mes: (f.mes + 1) as i64, dia: 1, ..f }
    } else {
        Fecha { anio: (f.anio + 1) as i64, mes: 1, dia: 1 }
    }
}

/// Days of the year before the first day of month `m`.
pub open spec fn dias_antes_de_mes(y: int, m: int) -> int
    decreases m,
{
    if m <= 1 {
        0
    } else {
        dias_antes_de_mes(y, m - 1) + dias_en_mes(y, m - 1)
    }
}

/// Position of the day in its year, from 1.
pub open spec fn dia_del_anio(f: Fecha) -> int {
    dias_antes_de_mes(f.anio as int, f.mes as int) + f.dia
}

/// Offset of month `m` in the day-of-week computation.
pub open spec fn desfase_mes(m: int) -> int {
    if m == 1 {
        0
    } else if m == 2 {
        3
    } else if m == 3 {
        2
    } else if m == 4 {
        5
    } else if m == 5 {
        0
    } else if m == 6 {
        3
    } else if m == 7 {
        5
    } else if m == 8 {
        1
    } else if m == 9 {
        4
    } else if m == 10 {
        6
    } else if m == 11 {
        2
    } else {
        4
    }
}

/// Day of the week, 1 for Monday to 7 for Sunday.
pub open spec fn dia_semana(f: Fecha) -> int {
    let y = if f.mes < 3 {
        f.anio - 1
    } else {
        f.anio as int
    };
    let w = (y + y / 4 - y / 100 + y / 400 + desfase_mes(f.mes as int) + f.dia) % 7;
    if w == 0 {
        7
    } else {
        w
    }
}

/// Number of ISO weeks of year `y`: 53 when it starts on a Thursday, or on a
/// Wednesday in a leap year.
pub open spec fn semanas_en_anio(y: int) -> int {
    let p = (y + y / 4 - y / 100 + y / 400) % 7;
    let q = ((y - 1) + (y - 1) / 4 - (y - 1) / 100 + (y - 1) / 400) % 7;
    if p == 4 || q == 3 {
        53
    } else {
        52
    }
}

/// ISO week-numbering year and week of `f`.
pub open spec fn semana_iso(f: Fecha) -> (int, int) {
    let w = (dia_del_anio(f) - dia_semana(f) + 10) / 7;
    if w < 1 {
        (f.anio - 1, semanas_en_anio(f.anio - 1))
    } else if w > semanas_en_anio(f.anio as int) {
        (f.anio + 1, 1)
    } else {
        (f.anio as int, w)
    }
}

/// Period key of a date: `yyyymmdd` by day, `yyyyww` (ISO year and week) by
/// week, `yyyymm` by month, and 0 for the single overall bucket.
pub open spec fn clave_periodo(f: Fecha, g: Agrupacion) -> int {
    match g {
        Agrupacion::Dia => codigo_dia(f),
        Agrupacion::Semana => semana_iso(f).0 * 100 + semana_iso(f).1,
        Agrupacion::Mes => f.anio * 100 + f.mes,
        Agrupacion::Total => 0,
    }
}

/// Whether `y` is a leap year.
pub fn es_bisiesto(y: i64) -> (r: bool)
    requires
        y >= 0,
    ensures
        r == bisiesto(y as int),
{
    (y % 4 == 0 && y % 100 != 0) || y % 400 == 0
}

/// Number of days of month `m` of year `y`.
pub fn dias_del_mes(y: i64, m: i64) -> (r: i64)
    requires
        y >= 0,
    ensures
        r == dias_en_mes(y as int, m as int),
        28 <= r <= 31,
{
    if m == 2 {
        if es_bisiesto(y) {
            29
        } else {
            28
        }
    } else if m == 4 || m == 6 || m == 9 || m == 11 {
        30
    } else {
        31
    }
}

impl Fecha {
    /// Whether this is a real date between the years 1 and 9999.
    pub fn es_valida(&self) -> (r: bool)
        ensures
            r == fecha_valida(*self),
    {
        1 <= self.anio && self.anio <= 9999 && 1 <= self.mes && self.mes <= 12 && 1 <= self.dia
            && self.dia <= dias_del_mes(self.anio, self.mes)
    }

    /// The date as the number `yyyymmdd`.
    pub fn codigo(&self) -> (r: i64)
        requires
            fecha_valida(*self),
        ensures
            r == codigo_dia(*self),
    {
        self.anio * 10000 + self.mes * 100 + self.dia
    }

    /// The next day. The year 9999 has no next day here.
    pub fn siguiente(&self) -> (r: Fecha)
        requires
            fecha_valida(*self),
            codigo_dia(*self) < 99991231,
        ensures
            r == dia_siguiente(*self),
            fecha_valida(r),
            codigo_dia(r) > codigo_dia(*self),
    {
        let dm = dias_del_mes(self.anio, self.mes);
        if self.dia < dm {
            Fecha { anio: self.anio, mes: self.mes, dia: self.dia + 1 }
        } else if self.mes < 12 {
            Fecha { anio: self.anio, mes: self.mes + 1, dia: 1 }
        } else {
            Fecha { anio: self.anio + 1, mes: 1, dia: 1 }
        }
    }

    /// Position of the day in its year, from 1.
    pub fn dia_del_anio(&self) -> (r: i64)
        requires
            fecha_valida(*self),
        ensures
            r == dia_del_anio(*self),
            1 <= r <= 366,
    {
        let mut acc: i64 = 0;
        let mut m: i64 = 1;
        while m < self.mes
            invariant
                fecha_valida(*self),
                1 <= m <= self.mes,
                acc == dias_antes_de_mes(self.anio as int, m as int),
                0 <= acc <= (m - 1) * 31,
            decreases self.mes - m,
        {
            acc = acc + dias_del_mes(self.anio, m);
            m = m + 1;
        }
        proof {
            lemma_dias_antes(self.anio as int, self.mes as int);
        }
        acc + self.dia
    }

    /// Day of the week, 1 for Monday to 7 for Sunday.
    pub fn dia_semana(&self) -> (r: i64)
        requires
            fecha_valida(*self),
        ensures
            r == dia_semana(*self),
            1 <= r <= 7,
    {
        let y = if self.mes < 3 {
            self.anio - 1
        } else {
            self.anio
        };
        let t: i64 = if self.mes == 1 {
            0
        } else if self.mes == 2 {
            3
        } else if self.mes == 3 {
            2
        } else if self.mes == 4 {
            5
        } else if self.mes == 5 {
            0
        } else if self.mes == 6 {
            3
        } else if self.mes == 7 {
            5
        } else if self.mes == 8 {
            1
        } else if self.mes == 9 {
            4
        } else if self.mes == 10 {
            6
        } else if self.mes == 11 {
            2
        } else {
            4
        };
        let w = (y + y / 4 - y / 100 + y / 400 + t + self.dia) % 7;
        if w == 0 {
            7
        } else {
            w
        }
    }

    /// ISO week-numbering year and week.
    pub fn semana_iso(&self) -> (r: (i64, i64))
        requires
            fecha_valida(*self),
        ensures
            r.0 == semana_iso(*self).0,
            r.1 == semana_iso(*self).1,
            self.anio - 1 <= r.0 <= self.anio + 1,
            1 <= r.1 <= 53,
    {
        let w = (self.dia_del_anio() - self.dia_semana() + 10) / 7;
        if w < 1 {
            (self.anio - 1, semanas_del_anio(self.anio - 1))
        } else if w > semanas_del_anio(self.anio) {
            (self.anio + 1, 1)
        } else {
            (self.anio, w)
        }
    }

    /// Period key of the date under grouping `g`; see `clave_periodo`.
    pub fn clave(&self, g: Agrupacion) -> (r: i64)
        requires
            fecha_valida(*self),
        ensures
            r == clave_periodo(*self, g),
            0 <= r <= 99991231,
    {
        match g {
            Agrupacion::Dia => self.codigo(),
            Agrupacion::Semana => {
                let (y, w) = self.semana_iso();
                y * 100 + w
            },
            Agrupacion::Mes => self.anio * 100 + self.mes,
            Agrupacion::Total => 0,
        }
    }
}

/// The month `delta` months away from month `m` of year `y`, as (year, month).
pub open spec fn mes_desplazado(y: int, m: int, delta: int) -> (int, int) {
    let abs = y * 12 + (m - 1) + delta;
    (abs / 12, abs % 12 + 1)
}

/// The month `delta` months away from month `mes` of year `anio`. A month
/// outside 1..=12 is refused.
pub fn ym_shift(anio: i64, mes: i64, delta_months: i64) -> (r: Option<(i64, i64)>)
    requires
        -10000 <= anio <= 10000,
        -1_000_000 <= delta_months <= 1_000_000,
    ensures
        (1 <= mes <= 12) <==> r is Some,
        r matches Some(x) ==> x.0 == mes_desplazado(anio as int, mes as int, delta_months as int).0
            && x.1 == mes_desplazado(anio as int, mes as int, delta_months as int).1,
        r matches Some(x) ==> 1 <= x.1 <= 12 && x.0 * 12 + x.1 == anio * 12 + mes + delta_months,
{
    if mes < 1 || mes > 12 {
        return None;
    }
    let abs = anio * 12 + (mes - 1) + delta_months;
    let ny = if abs >= 0 {
        abs / 12
    } else {
        -((-abs + 11) / 12)
    };
    let nm0 = abs - ny * 12;
    proof {
        vstd::arithmetic::div_mod::lemma_fundamental_div_mod(abs as int, 12);
        assert(0 <= nm0 < 12 && ny == abs / 12 && nm0 == abs % 12) by {
            if abs >= 0 {
                vstd::arithmetic::div_mod::lemma_fundamental_div_mod(abs as int, 12);
            } else {
                vstd::arithmetic::div_mod::lemma_fundamental_div_mod(-abs + 11, 12);
            }
        }
    }
    Some((ny, nm0 + 1))
}

/// The month before month `mes` of year `anio`.
pub fn prev_ym(anio: i64, mes: i64) -> (r: Option<(i64, i64)>)
    requires
        -10000 <= anio <= 10000,
    ensures
        (1 <= mes <= 12) <==> r is Some,
        r matches Some(x) ==> (mes > 1 ==> x == (anio, (mes - 1) as i64)) && (mes == 1 ==> x == (
            (anio - 1) as i64,
            12i64,
        )),
{
    if mes < 1 || mes > 12 {
        return None;
    }
    if mes == 1 {
        Some((anio - 1, 12))
    } else {
        Some((anio, mes - 1))
    }
}

/// The `n` months that end with month `mes` of year `anio`, oldest first.
pub fn last_n_months(anio: i64, mes: i64, n: usize) -> (r: Option<Vec<(i64, i64)>>)
    requires
        -10000 <= anio <= 10000,
        n <= 1_000_000,
    ensures
        (1 <= mes <= 12) <==> r is Some,
        r matches Some(v) ==> v.len() == n && forall|i: int|
            0 <= i < n ==> #[trigger] v@[i].0 == mes_desplazado(anio as int, mes as int, i - n + 1).0
                && v@[i].1 == mes_desplazado(anio as int, mes as int, i - n + 1).1,
{
    if mes < 1 || mes > 12 {
        return None;
    }
    let mut out: Vec<(i64, i64)> = Vec::new();
    let mut i: usize = 0;
    while i < n
        invariant
            -10000 <= anio <= 10000,
            1 <= mes <= 12,
            n <= 1_000_000,
            i <= n,
            out.len() == i,
            forall|t: int|
                0 <= t < i ==> #[trigger] out@[t].0 == mes_desplazado(anio as int, mes as int, t - n + 1).0
                    && out@[t].1 == mes_desplazado(anio as int, mes as int, t - n + 1).1,
        decreases n - i,
    {
        let delta: i64 = i as i64 - n as i64 + 1;
        assert(delta as int == i - n + 1);
        match ym_shift(anio, mes, delta) {
            Some(x) => {
                let ghost viejo = out@;
                out.push(x);
                assert(forall|t: int| 0 <= t < i ==> out@[t] == viejo[t]);
            },
            None => return None,
        }
        i = i + 1;
    }
    Some(out)
}

/// First and last day of month `mes` of year `anio`.
pub fn month_bounds_from_ym(anio: i64, mes: i64) -> (r: Option<(Fecha, Fecha)>)
    ensures
        (1 <= anio <= 9999 && 1 <= mes <= 12) <==> r is Some,
        r matches Some(x) ==> x.0 == (Fecha { anio, mes, dia: 1 }) && x.1 == (Fecha {
            anio,
            mes,
            dia: dias_en_mes(anio as int, mes as int) as i64,
        }) && fecha_valida(x.0) && fecha_valida(x.1),
{
    if anio < 1 || anio > 9999 || mes < 1 || mes > 12 {
        return None;
    }
    let ultimo = dias_del_mes(anio, mes);
    Some((Fecha { anio, mes, dia: 1 }, Fecha { anio, mes, dia: ultimo }))
}

/// The `YYYY-MM` prefix of an ISO date `YYYY-MM-DD`; a text shorter than
/// seven characters is refused.
pub fn ym_from_iso_date(fecha: &str) -> (r: Result<String, LedgerError>)
    ensures
        fecha@.len() >= 7 ==> (r matches Ok(t) && t@ == fecha@.subrange(0, 7)),
        fecha@.len() < 7 ==> (r matches Err(e) && e == LedgerError::InvalidInput),
{
    if fecha.unicode_len() < 7 {
        return Err(LedgerError::InvalidInput);
    }
    Ok(<String as StringExecFns>::from_str(fecha.substring_char(0, 7)))
}

/// Number of ISO weeks of year `y`.
pub fn semanas_del_anio(y: i64) -> (r: i64)
    requires
        0 <= y <= 10000,
    ensures
        r == semanas_en_anio(y as int),
        52 <= r <= 53,
{
    let p = (y + y / 4 - y / 100 + y / 400) % 7;
    let q = ((y - 1) + (y - 1) / 4 - (y - 1) / 100 + (y - 1) / 400) % 7;
    if p == 4 || q == 3 {
        53
    } else {
        52
    }
}

/// The day after a date comes later.
pub proof fn lemma_siguiente_crece(f: Fecha)
    requires
        fecha_valida(f),
    ensures
        codigo_dia(dia_siguiente(f)) > codigo_dia(f),
        f.anio < 9999 || f.mes < 12 || f.dia < 31 ==> fecha_valida(dia_siguiente(f)),
{
}

proof fn lemma_dias_antes(y: int, m: int)
    requires
        1 <= m <= 12,
    ensures
        0 <= dias_antes_de_mes(y, m) <= 366 - dias_en_mes(y, m),
        dias_antes_de_mes(y, m) + dias_en_mes(y, m) <= 366,
    decreases m,
{
    if m > 1 {
        lemma_dias_antes(y, m - 1);
        assert(dias_antes_de_mes(y, m) == dias_antes_de_mes(y, m - 1) + dias_en_mes(y, m - 1));
        assert(dias_antes_de_mes(y, m) + dias_en_mes(y, m) <= 366) by {
            reveal_with_fuel(dias_antes_de_mes, 13);
        }
    }
}

} // verus!
