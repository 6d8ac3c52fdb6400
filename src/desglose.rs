//! Breakdowns shown beside a report: revenue by payment medium and expense
//! ledger entries by category, over the report's date range.

use vstd::prelude::*;
use crate::error::{EstadoVenta, LedgerError};
use crate::fecha::{codigo_dia, fecha_valida, Fecha};
use crate::pnl::{en_rango, GastoRegistro, PnlReporteInput, TipoGasto};
use crate::venta::{cabe, MedioPago};
use crate::agregado::{lemma_ordenadas_iguales_por, COTA_REGISTROS};
use crate::pnl_modelo::PnlGastoCategoria;
use crate::texto::{lemma_texto_total, lemma_texto_transitivo, menor_texto, texto_igual, texto_menor};

verus! {

/// A payment as the breakdown reads it, with the date, operator and state of its sale.
#[derive(Debug, Clone, Copy, PartialEq, Eq, Structural)]
pub struct PagoRegistro {
    pub fecha: Fecha,
    pub id_usuario: i64,
    pub estado: EstadoVenta,
    pub medio: MedioPago,
    pub monto: i64,
}

/// A payment counts under the same rules as its sale in the report.
pub open spec fn pago_incluido(p: PagoRegistro, q: PnlReporteInput) -> bool {
    &&& en_rango(p.fecha, q)
    &&& (q.incluir_no_finalizadas || p.estado == EstadoVenta::Finalizada)
    &&& (q.id_usuario matches Some(u) ==> p.id_usuario == u)
}

/// Position of a medium in the order of its stored name: `credito`,
/// `debito`, `efectivo`, `transferencia`.
pub open spec fn orden_medio(m: MedioPago) -> int {
    match m {
        MedioPago::Credito => 0,
        MedioPago::Debito => 1,
        MedioPago::Efectivo => 2,
        MedioPago::Transferencia => 3,
    }
}

/// Sum of the amounts of the payments that count and were made with `m`.
pub open spec fn total_medio(ps: Seq<PagoRegistro>, q: PnlReporteInput, m: MedioPago) -> int
    decreases ps.len(),
{
    if ps.len() == 0 {
        0
    } else {
        total_medio(ps.drop_last(), q, m) + if pago_incluido(ps.last(), q) && ps.last().medio == m {
            ps.last().monto as int
        } else {
            0
        }
    }
}

/// Some payment that counts was made with `m`.
pub open spec fn usa_medio(ps: Seq<PagoRegistro>, q: PnlReporteInput, m: MedioPago) -> bool {
    exists|i: int| 0 <= i < ps.len() && pago_incluido(ps[i], q) && ps[i].medio == m
}

/// The breakdown lists each medium used, in name order, with its total.
pub open spec fn desglose_medios_correcto(
    r: Seq<(MedioPago, i64)>,
    ps: Seq<PagoRegistro>,
    q: PnlReporteInput,
) -> bool {
    &&& forall|i: int, j: int| 0 <= i < j < r.len() ==> orden_medio(r[i].0) < orden_medio(r[j].0)
    &&& forall|m: MedioPago| usa_medio(ps, q, m) <==> exists|i: int| 0 <= i < r.len() && r[i].0 == m
    &&& forall|i: int| 0 <= i < r.len() ==> #[trigger] r[i].1 == total_medio(ps, q, r[i].0)
}

/// The range of the request is made of real dates and the payments are few
/// enough for their sums to be computed exactly.
pub open spec fn pagos_validos(q: PnlReporteInput, ps: Seq<PagoRegistro>) -> bool {
    &&& fecha_valida(q.desde)
    &&& fecha_valida(q.hasta)
    &&& ps.len() <= COTA_REGISTROS
    &&& forall|i: int| 0 <= i < ps.len() ==> fecha_valida(#[trigger] ps[i].fecha)
}

fn incluido_exec(p: &PagoRegistro, q: &PnlReporteInput) -> (r: bool)
    requires
        fecha_valida(p.fecha),
        fecha_valida(q.desde),
        fecha_valida(q.hasta),
    ensures
        r == pago_incluido(*p, *q),
{
    q.desde.codigo() <= p.fecha.codigo() && p.fecha.codigo() <= q.hasta.codigo() && (
    q.incluir_no_finalizadas || p.estado == EstadoVenta::Finalizada) && match q.id_usuario {
        Some(u) => p.id_usuario == u,
        None => true,
    }
}

fn sumar_medio(q: &PnlReporteInput, pagos: &Vec<PagoRegistro>, m: MedioPago) -> (r: (i128, bool))
    requires
        pagos_validos(*q, pagos@),
    ensures
        r.0 == total_medio(pagos@, *q, m),
        r.1 == usa_medio(pagos@, *q, m),
{
    let mut acc: i128 = 0;
    let mut usado = false;
    let mut i: usize = 0;
    while i < pagos.len()
        invariant
            pagos_validos(*q, pagos@),
            i <= pagos.len(),
            acc == total_medio(pagos@.take(i as int), *q, m),
            -i * 0x8000_0000_0000_0000 <= acc <= i * 0x8000_0000_0000_0000,
            usado == exists|t: int| 0 <= t < i && pago_incluido(pagos@[t], *q) && pagos@[t].medio == m,
        decreases pagos.len() - i,
    {
        proof {
            assert(pagos@.take(i + 1).drop_last() =~= pagos@.take(i as int));
        }
        let p = pagos[i];
        assert(fecha_valida(pagos@[i as int].fecha));
        if incluido_exec(&p, q) && p.medio == m {
            acc = acc + p.monto as i128;
            usado = true;
        }
        i = i + 1;
    }
    assert(pagos@.take(pagos.len() as int) =~= pagos@);
    (acc, usado)
}

/// Revenue by payment medium over the report's range and filters: each medium
/// used once, in the order of its stored name, with the sum of its payments.
/// Fails with `InvalidInput` when a date is not real, there are too many
/// payments, or a sum leaves the amount range.
pub fn ingresos_por_medio(q: &PnlReporteInput, pagos: &Vec<PagoRegistro>) -> (r: Result<
    Vec<(MedioPago, i64)>,
    LedgerError,
>)
    ensures
        r matches Err(e) ==> e == LedgerError::InvalidInput,
        !pagos_validos(*q, pagos@) ==> r is Err,
        pagos_validos(*q, pagos@) ==> (r is Ok <==> forall|m: MedioPago|
            usa_medio(pagos@, *q, m) ==> cabe(#[trigger] total_medio(pagos@, *q, m))),
        r matches Ok(v) ==> desglose_medios_correcto(v@, pagos@, *q),
{
    if !q.desde.es_valida() || !q.hasta.es_valida() || pagos.len() > COTA_REGISTROS {
        return Err(LedgerError::InvalidInput);
    }
    let mut i: usize = 0;
    while i < pagos.len()
        invariant
            i <= pagos.len(),
            forall|t: int| 0 <= t < i ==> fecha_valida(#[trigger] pagos@[t].fecha),
        decreases pagos.len() - i,
    {
        if !pagos[i].fecha.es_valida() {
            return Err(LedgerError::InvalidInput);
        }
        i = i + 1;
    }
    let medios = [MedioPago::Credito, MedioPago::Debito, MedioPago::Efectivo, MedioPago::Transferencia];
    let mut out: Vec<(MedioPago, i64)> = Vec::new();
    let mut k: usize = 0;
    while k < 4
        invariant
            pagos_validos(*q, pagos@),
            k <= 4,
            medios@ == seq![MedioPago::Credito, MedioPago::Debito, MedioPago::Efectivo, MedioPago::Transferencia],
            forall|i: int| 0 <= i < out.len() ==> orden_medio(#[trigger] out@[i].0) < k,
            forall|i: int, j: int| 0 <= i < j < out.len() ==> orden_medio(out@[i].0) < orden_medio(out@[j].0),
            forall|m: MedioPago| orden_medio(m) < k ==> (usa_medio(pagos@, *q, m) <==> exists|i: int| 0 <= i < out.len() && out@[i].0 == m),
            forall|m: MedioPago| orden_medio(m) < k && usa_medio(pagos@, *q, m) ==> cabe(#[trigger] total_medio(pagos@, *q, m)),
            forall|i: int| 0 <= i < out.len() ==> #[trigger] out@[i].1 == total_medio(pagos@, *q, out@[i].0),
        decreases 4 - k,
    {
        let m = medios[k];
        assert(orden_medio(m) == k);
        let (total, usado) = sumar_medio(q, pagos, m);
        let ghost viejo = out@;
        if usado {
            if total < i64::MIN as i128 || total > i64::MAX as i128 {
                return Err(LedgerError::InvalidInput);
            }
            out.push((m, total as i64));
        }
        assert forall|mm: MedioPago| orden_medio(mm) < k + 1 implies (usa_medio(pagos@, *q, mm)
            <==> exists|i: int| 0 <= i < out.len() && out@[i].0 == mm) by {
            if exists|i: int| 0 <= i < out.len() && out@[i].0 == mm {
                let i = choose|i: int| 0 <= i < out.len() && out@[i].0 == mm;
                if i < viejo.len() {
                    assert(viejo[i].0 == mm);
                    assert(orden_medio(viejo[i].0) < k);
                } else {
                    assert(mm == m);
                }
            }
            if orden_medio(mm) < k {
                if exists|i: int| 0 <= i < viejo.len() && viejo[i].0 == mm {
                    let i = choose|i: int| 0 <= i < viejo.len() && viejo[i].0 == mm;
                    assert(out@[i] == viejo[i]);
                }
            } else {
                assert(mm == m);
                if usado {
                    assert(out@[out.len() - 1].0 == mm);
                }
            }
        }
        k = k + 1;
    }
    Ok(out)
}


/// Sum of the entries in range of kind `t` filed under category `c`.
pub open spec fn total_categoria(gs: Seq<GastoRegistro>, q: PnlReporteInput, c: Seq<char>, t: TipoGasto) -> int
    decreases gs.len(),
{
    if gs.len() == 0 {
        0
    } else {
        let g = gs.last();
        total_categoria(gs.drop_last(), q, c, t) + if en_rango(g.fecha, q) && g.categoria@ == c
            && g.tipo == t {
            g.monto as int
        } else {
            0
        }
    }
}

/// Some entry in range is filed under category `c`.
pub open spec fn tiene_categoria(gs: Seq<GastoRegistro>, q: PnlReporteInput, c: Seq<char>) -> bool {
    exists|i: int| 0 <= i < gs.len() && en_rango(gs[i].fecha, q) && gs[i].categoria@ == c
}

/// Texts in strictly increasing order.
pub open spec fn textos_ordenados(k: Seq<String>) -> bool {
    forall|i: int, j: int| 0 <= i < j < k.len() ==> texto_menor(k[i]@, k[j]@)
}

/// Some text of `k` reads `s`.
pub open spec fn tiene_texto(k: Seq<String>, s: Seq<char>) -> bool {
    exists|i: int| 0 <= i < k.len() && k[i]@ == s
}

/// The income, expense and net of every category in use fit in the amount range.
pub open spec fn categorias_caben(gs: Seq<GastoRegistro>, q: PnlReporteInput) -> bool {
    forall|c: Seq<char>|
        #[trigger] tiene_categoria(gs, q, c) ==> {
            &&& cabe(total_categoria(gs, q, c, TipoGasto::Ingreso))
            &&& cabe(total_categoria(gs, q, c, TipoGasto::Egreso))
            &&& cabe(total_categoria(gs, q, c, TipoGasto::Ingreso) - total_categoria(gs, q, c, TipoGasto::Egreso))
        }
}

/// The breakdown lists each category in use once, in text order, with its
/// income, expense and net.
pub open spec fn desglose_categorias_correcto(
    r: Seq<PnlGastoCategoria>,
    gs: Seq<GastoRegistro>,
    q: PnlReporteInput,
) -> bool {
    &&& forall|i: int, j: int| 0 <= i < j < r.len() ==> texto_menor(r[i].categoria@, r[j].categoria@)
    &&& forall|c: Seq<char>|
        #[trigger] tiene_categoria(gs, q, c) <==> exists|i: int| 0 <= i < r.len() && r[i].categoria@ == c
    &&& forall|i: int|
        0 <= i < r.len() ==> {
            &&& #[trigger] r[i].ingresos == total_categoria(gs, q, r[i].categoria@, TipoGasto::Ingreso)
            &&& r[i].egresos == total_categoria(gs, q, r[i].categoria@, TipoGasto::Egreso)
            &&& r[i].neto == r[i].ingresos - r[i].egresos
        }
}

/// The range of the request is made of real dates, every entry has a real
/// date, and the entries are few enough for their sums to be computed exactly.
pub open spec fn gastos_validos(q: PnlReporteInput, gs: Seq<GastoRegistro>) -> bool {
    &&& fecha_valida(q.desde)
    &&& fecha_valida(q.hasta)
    &&& gs.len() <= COTA_REGISTROS
    &&& forall|i: int| 0 <= i < gs.len() ==> fecha_valida(#[trigger] gs[i].fecha)
}

/// Inserts `c` into the increasing texts `k`, unless it is there.
fn insertar_categoria(k: &mut Vec<String>, c: &String)
    requires
        textos_ordenados(old(k)@),
    ensures
        textos_ordenados(final(k)@),
        forall|s: Seq<char>|
            #![trigger tiene_texto(final(k)@, s)]
            tiene_texto(final(k)@, s) <==> (tiene_texto(old(k)@, s) || s == c@),
{
    let n = k.len();
    let mut i: usize = 0;
    while i < n && menor_texto(k[i].as_str(), c.as_str())
        invariant
            n == k.len(),
            k@ == old(k)@,
            i <= n,
            forall|t: int| 0 <= t < i ==> texto_menor(#[trigger] k@[t]@, c@),
        decreases n - i,
    {
        i = i + 1;
    }
    if i < n && texto_igual(k[i].as_str(), c.as_str()) {
        assert(k@[i as int]@ == c@);
        return;
    }
    let ghost viejo = k@;
    proof {
        if i < n {
            lemma_texto_total(viejo[i as int]@, c@);
            assert(texto_menor(c@, viejo[i as int]@));
        }
    }
    k.insert(i, c.clone());
    assert forall|a: int, b: int| 0 <= a < b < k@.len() implies texto_menor(k@[a]@, k@[b]@) by {
        if b < i {
            assert(k@[a] == viejo[a] && k@[b] == viejo[b]);
        } else if b == i {
            assert(k@[a] == viejo[a]);
        } else if a == i {
            assert(k@[b] == viejo[b - 1]);
            if b - 1 > i {
                lemma_texto_transitivo(c@, viejo[i as int]@, viejo[b - 1]@);
            }
        } else if a < i {
            assert(k@[a] == viejo[a] && k@[b] == viejo[b - 1]);
        } else {
            assert(k@[a] == viejo[a - 1] && k@[b] == viejo[b - 1]);
        }
    }
    assert forall|s: Seq<char>|
        #![trigger tiene_texto(k@, s)]
        tiene_texto(k@, s) <==> (tiene_texto(viejo, s) || s == c@) by {
        if tiene_texto(k@, s) {
            let t = choose|t: int| 0 <= t < k@.len() && k@[t]@ == s;
            if t < i {
                assert(viejo[t] == k@[t]);
            } else if t > i {
                assert(viejo[t - 1] == k@[t]);
            }
        }
        if tiene_texto(viejo, s) {
            let t = choose|t: int| 0 <= t < viejo.len() && viejo[t]@ == s;
            if t < i {
                assert(k@[t] == viejo[t]);
            } else {
                assert(k@[t + 1] == viejo[t]);
            }
        }
        if s == c@ {
            assert(k@[i as int]@ == s);
        }
    }
}

fn sumar_categoria(q: &PnlReporteInput, gastos: &Vec<GastoRegistro>, c: &String) -> (r: (i128, i128))
    requires
        gastos_validos(*q, gastos@),
    ensures
        r.0 == total_categoria(gastos@, *q, c@, TipoGasto::Ingreso),
        r.1 == total_categoria(gastos@, *q, c@, TipoGasto::Egreso),
        -0x1000_0000_0000_0000_0000_0000 <= r.0 <= 0x1000_0000_0000_0000_0000_0000,
        -0x1000_0000_0000_0000_0000_0000 <= r.1 <= 0x1000_0000_0000_0000_0000_0000,
{
    let mut ing: i128 = 0;
    let mut egr: i128 = 0;
    let mut i: usize = 0;
    while i < gastos.len()
        invariant
            gastos_validos(*q, gastos@),
            i <= gastos.len(),
            ing == total_categoria(gastos@.take(i as int), *q, c@, TipoGasto::Ingreso),
            egr == total_categoria(gastos@.take(i as int), *q, c@, TipoGasto::Egreso),
            -i * 0x8000_0000_0000_0000 <= ing <= i * 0x8000_0000_0000_0000,
            -i * 0x8000_0000_0000_0000 <= egr <= i * 0x8000_0000_0000_0000,
        decreases gastos.len() - i,
    {
        proof {
            assert(gastos@.take(i + 1).drop_last() =~= gastos@.take(i as int));
        }
        let g = &gastos[i];
        assert(fecha_valida(gastos@[i as int].fecha));
        let dentro = q.desde.codigo() <= g.fecha.codigo() && g.fecha.codigo() <= q.hasta.codigo();
        if dentro && texto_igual(g.categoria.as_str(), c.as_str()) {
            if g.tipo == TipoGasto::Ingreso {
                ing = ing + g.monto as i128;
            } else {
                egr = egr + g.monto as i128;
            }
        }
        i = i + 1;
    }
    assert(gastos@.take(gastos.len() as int) =~= gastos@);
    (ing, egr)
}

/// Expense ledger entries in the report's range by category: each category
/// once, in text order, with its income, expense and net (income minus
/// expense). Fails with `InvalidInput` when a date is not real, there are too
/// many entries, or an amount leaves the amount range.
pub fn gastos_por_categoria(q: &PnlReporteInput, gastos: &Vec<GastoRegistro>) -> (r: Result<
    Vec<PnlGastoCategoria>,
    LedgerError,
>)
    ensures
        r matches Err(e) ==> e == LedgerError::InvalidInput,
        !gastos_validos(*q, gastos@) ==> r is Err,
        gastos_validos(*q, gastos@) ==> (r is Ok <==> categorias_caben(gastos@, *q)),
        r matches Ok(v) ==> desglose_categorias_correcto(v@, gastos@, *q),
{
    if !q.desde.es_valida() || !q.hasta.es_valida() || gastos.len() > COTA_REGISTROS {
        return Err(LedgerError::InvalidInput);
    }
    let mut i: usize = 0;
    while i < gastos.len()
        invariant
            i <= gastos.len(),
            forall|t: int| 0 <= t < i ==> fecha_valida(#[trigger] gastos@[t].fecha),
        decreases gastos.len() - i,
    {
        if !gastos[i].fecha.es_valida() {
            return Err(LedgerError::InvalidInput);
        }
        i = i + 1;
    }
    let mut claves: Vec<String> = Vec::new();
    let mut i: usize = 0;
    while i < gastos.len()
        invariant
            gastos_validos(*q, gastos@),
            i <= gastos.len(),
            textos_ordenados(claves@),
            forall|s: Seq<char>|
                #![trigger tiene_texto(claves@, s)]
                tiene_texto(claves@, s) <==> exists|t: int|
                    0 <= t < i && en_rango(gastos@[t].fecha, *q) && gastos@[t].categoria@ == s,
        decreases gastos.len() - i,
    {
        let g = &gastos[i];
        assert(fecha_valida(gastos@[i as int].fecha));
        let ghost antes = claves@;
        if q.desde.codigo() <= g.fecha.codigo() && g.fecha.codigo() <= q.hasta.codigo() {
            insertar_categoria(&mut claves, &g.categoria);
        }
        assert forall|s: Seq<char>|
            #![trigger tiene_texto(claves@, s)]
            tiene_texto(claves@, s) <==> exists|t: int|
                0 <= t < i + 1 && en_rango(gastos@[t].fecha, *q) && gastos@[t].categoria@ == s by {
            assert(tiene_texto(antes, s) <==> exists|t: int|
                0 <= t < i && en_rango(gastos@[t].fecha, *q) && gastos@[t].categoria@ == s);
            if exists|t: int| 0 <= t < i + 1 && en_rango(gastos@[t].fecha, *q) && gastos@[t].categoria@ == s {
                let t = choose|t: int| 0 <= t < i + 1 && en_rango(gastos@[t].fecha, *q) && gastos@[t].categoria@ == s;
                if t < i {
                    assert(tiene_texto(antes, s));
                }
            }
        }
        i = i + 1;
    }
    let mut out: Vec<PnlGastoCategoria> = Vec::new();
    let mut k: usize = 0;
    while k < claves.len()
        invariant
            gastos_validos(*q, gastos@),
            textos_ordenados(claves@),
            forall|s: Seq<char>|
                #![trigger tiene_texto(claves@, s)]
                tiene_texto(claves@, s) <==> tiene_categoria(gastos@, *q, s),
            k <= claves.len(),
            out.len() == k,
            forall|t: int| 0 <= t < k ==> (#[trigger] out@[t]).categoria@ == claves@[t]@,
            forall|t: int|
                0 <= t < k ==> {
                    &&& #[trigger] out@[t].ingresos == total_categoria(gastos@, *q, out@[t].categoria@, TipoGasto::Ingreso)
                    &&& out@[t].egresos == total_categoria(gastos@, *q, out@[t].categoria@, TipoGasto::Egreso)
                    &&& out@[t].neto == out@[t].ingresos - out@[t].egresos
                },
        decreases claves.len() - k,
    {
        let (ing, egr) = sumar_categoria(q, gastos, &claves[k]);
        let neto = ing - egr;
        let min = i64::MIN as i128;
        let max = i64::MAX as i128;
        if ing < min || ing > max || egr < min || egr > max || neto < min || neto > max {
            proof {
                assert(tiene_texto(claves@, claves@[k as int]@));
                assert(tiene_categoria(gastos@, *q, claves@[k as int]@));
            }
            return Err(LedgerError::InvalidInput);
        }
        out.push(
            PnlGastoCategoria {
                categoria: claves[k].clone(),
                ingresos: ing as i64,
                egresos: egr as i64,
                neto: neto as i64,
            },
        );
        k = k + 1;
    }
    proof {
        assert forall|c: Seq<char>|
            #[trigger] tiene_categoria(gastos@, *q, c) implies {
                &&& cabe(total_categoria(gastos@, *q, c, TipoGasto::Ingreso))
                &&& cabe(total_categoria(gastos@, *q, c, TipoGasto::Egreso))
                &&& cabe(total_categoria(gastos@, *q, c, TipoGasto::Ingreso) - total_categoria(gastos@, *q, c, TipoGasto::Egreso))
            } by {
            assert(tiene_texto(claves@, c));
            let t = choose|t: int| 0 <= t < claves@.len() && claves@[t]@ == c;
            assert(out@[t].categoria@ == c);
            assert(out@[t].ingresos == total_categoria(gastos@, *q, c, TipoGasto::Ingreso));
            assert(out@[t].egresos == total_categoria(gastos@, *q, c, TipoGasto::Egreso));
            assert(out@[t].neto == out@[t].ingresos - out@[t].egresos);
        }
        assert forall|a: int, b: int| 0 <= a < b < out@.len() implies texto_menor(out@[a].categoria@, out@[b].categoria@) by {
            assert(out@[a].categoria@ == claves@[a]@ && out@[b].categoria@ == claves@[b]@);
        }
        assert forall|c: Seq<char>|
            #[trigger] tiene_categoria(gastos@, *q, c) <==> exists|i: int| 0 <= i < out@.len() && out@[i].categoria@ == c by {
            if tiene_categoria(gastos@, *q, c) {
                assert(tiene_texto(claves@, c));
                let t = choose|t: int| 0 <= t < claves@.len() && claves@[t]@ == c;
                assert(out@[t].categoria@ == c);
            }
            if exists|i: int| 0 <= i < out@.len() && out@[i].categoria@ == c {
                let i = choose|i: int| 0 <= i < out@.len() && out@[i].categoria@ == c;
                assert(claves@[i]@ == c);
                assert(tiene_texto(claves@, c));
            }
        }
        assert forall|i: int| 0 <= i < out@.len() implies {
            &&& #[trigger] out@[i].ingresos == total_categoria(gastos@, *q, out@[i].categoria@, TipoGasto::Ingreso)
            &&& out@[i].egresos == total_categoria(gastos@, *q, out@[i].categoria@, TipoGasto::Egreso)
            &&& out@[i].neto == out@[i].ingresos - out@[i].egresos
        } by {
        }
    }
    Ok(out)
}

/// The revenue-by-medium breakdown is a function of the payments and the
/// request: any two breakdowns of the same ones are identical.
pub proof fn lemma_medios_determinista(
    q: PnlReporteInput,
    ps: Seq<PagoRegistro>,
    ra: Seq<(MedioPago, i64)>,
    rb: Seq<(MedioPago, i64)>,
)
    requires
        desglose_medios_correcto(ra, ps, q),
        desglose_medios_correcto(rb, ps, q),
    ensures
        ra == rb,
{
    let lt = |x: (MedioPago, i64), y: (MedioPago, i64)| orden_medio(x.0) < orden_medio(y.0);
    assert forall|x: (MedioPago, i64)| ra.contains(x) <==> rb.contains(x) by {
        if ra.contains(x) {
            let i = choose|i: int| 0 <= i < ra.len() && ra[i] == x;
            assert(usa_medio(ps, q, x.0));
            let j = choose|j: int| 0 <= j < rb.len() && rb[j].0 == x.0;
            assert(rb[j].1 == total_medio(ps, q, rb[j].0));
            assert(ra[i].1 == total_medio(ps, q, ra[i].0));
            assert(rb[j] == x);
        }
        if rb.contains(x) {
            let i = choose|i: int| 0 <= i < rb.len() && rb[i] == x;
            assert(usa_medio(ps, q, x.0));
            let j = choose|j: int| 0 <= j < ra.len() && ra[j].0 == x.0;
            assert(ra[j].1 == total_medio(ps, q, ra[j].0));
            assert(rb[i].1 == total_medio(ps, q, rb[i].0));
            assert(ra[j] == x);
        }
    }
    lemma_ordenadas_iguales_por(ra, rb, lt);
}

/// What a category line says: the category's text and its three amounts.
pub open spec fn lectura_categoria(x: PnlGastoCategoria) -> (Seq<char>, i64, i64, i64) {
    (x.categoria@, x.ingresos, x.egresos, x.neto)
}

/// The expense-by-category breakdown is a function of the entries and the
/// request: any two breakdowns of the same ones read the same, line by line.
pub proof fn lemma_categorias_determinista(
    q: PnlReporteInput,
    gs: Seq<GastoRegistro>,
    ra: Seq<PnlGastoCategoria>,
    rb: Seq<PnlGastoCategoria>,
)
    requires
        desglose_categorias_correcto(ra, gs, q),
        desglose_categorias_correcto(rb, gs, q),
    ensures
        ra.len() == rb.len(),
        forall|i: int| 0 <= i < ra.len() ==> lectura_categoria(ra[i]) == lectura_categoria(rb[i]),
{
    let ka = ra.map_values(|x: PnlGastoCategoria| lectura_categoria(x));
    let kb = rb.map_values(|x: PnlGastoCategoria| lectura_categoria(x));
    let lt = |x: (Seq<char>, i64, i64, i64), y: (Seq<char>, i64, i64, i64)| texto_menor(x.0, y.0);
    assert forall|x: (Seq<char>, i64, i64, i64)| !#[trigger] lt(x, x) by {
        lemma_texto_total(x.0, x.0);
    }
    assert forall|x: (Seq<char>, i64, i64, i64), y: (Seq<char>, i64, i64, i64)|
        #[trigger] lt(x, y) implies !lt(y, x) by {
        lemma_texto_total(x.0, y.0);
    }
    assert forall|i: int, j: int| 0 <= i < j < ka.len() implies lt(ka[i], ka[j]) by {
        assert(texto_menor(ra[i].categoria@, ra[j].categoria@));
    }
    assert forall|i: int, j: int| 0 <= i < j < kb.len() implies lt(kb[i], kb[j]) by {
        assert(texto_menor(rb[i].categoria@, rb[j].categoria@));
    }
    assert forall|x: (Seq<char>, i64, i64, i64)| ka.contains(x) <==> kb.contains(x) by {
        if ka.contains(x) {
            let i = choose|i: int| 0 <= i < ka.len() && ka[i] == x;
            assert(ra[i].categoria@ == x.0);
            assert(tiene_categoria(gs, q, x.0));
            let j = choose|j: int| 0 <= j < rb.len() && rb[j].categoria@ == x.0;
            assert(ra[i].ingresos == total_categoria(gs, q, ra[i].categoria@, TipoGasto::Ingreso));
            assert(rb[j].ingresos == total_categoria(gs, q, rb[j].categoria@, TipoGasto::Ingreso));
            assert(kb[j] == x);
        }
        if kb.contains(x) {
            let i = choose|i: int| 0 <= i < kb.len() && kb[i] == x;
            assert(rb[i].categoria@ == x.0);
            assert(tiene_categoria(gs, q, x.0));
            let j = choose|j: int| 0 <= j < ra.len() && ra[j].categoria@ == x.0;
            assert(rb[i].ingresos == total_categoria(gs, q, rb[i].categoria@, TipoGasto::Ingreso));
            assert(ra[j].ingresos == total_categoria(gs, q, ra[j].categoria@, TipoGasto::Ingreso));
            assert(ka[j] == x);
        }
    }
    lemma_ordenadas_iguales_por(ka, kb, lt);
    assert forall|i: int| 0 <= i < ra.len() implies lectura_categoria(ra[i]) == lectura_categoria(rb[i]) by {
        assert(ka[i] == kb[i]);
    }
}

} // verus!
