//! Periodic profit-and-loss rollup: sales revenue and cost of goods by
//! period, merged with the expense ledger, with monthly expenses spread evenly
//! over the days of their month when grouping by day or week.

use vstd::prelude::*;
use crate::agregado::{
    acotados, claves_de, lemma_particion, ordenada, suma_a, suma_a_por_claves,
    suma_b, suma_b_por_claves, sumar_clave, tiene_clave, total_a, total_b, COTA_REGISTROS,
};
use crate::error::{EstadoVenta, LedgerError};
use crate::fecha::{
    clave_periodo, codigo_dia, dia_siguiente, dias_en_mes, fecha_valida, Agrupacion, Fecha,
};
use crate::venta::{cabe, costos_caben, LineaVenta, Venta};
use crate::pnl_modelo::PnlMeta;
use crate::texto::texto_igual;
use vstd::string::StringExecFns;

verus! {

/// Kind of an expense ledger entry.
#[derive(Debug, Clone, Copy, PartialEq, Eq, Structural)]
pub enum TipoGasto {
    Ingreso,
    Egreso,
}

/// A sale as the rollup reads it: its local date, operator, state, total and
/// cost of goods (quantity times snapshotted cost, summed over its lines).
#[derive(Debug, Clone, Copy, PartialEq, Eq, Structural)]
pub struct VentaRegistro {
    pub id_venta: i64,
    pub id_usuario: i64,
    pub fecha: Fecha,
    pub estado: EstadoVenta,
    pub total: i64,
    pub costo_mercaderia: i64,
}

/// An expense ledger entry.
#[derive(Debug, Clone)]
pub struct GastoRegistro {
    pub fecha: Fecha,
    pub categoria: String,
    pub tipo: TipoGasto,
    pub monto: i64,
}

/// What a report is asked for.
#[derive(Debug, Clone, Copy, PartialEq, Eq, Structural)]
pub struct PnlReporteInput {
    pub desde: Fecha,
    pub hasta: Fecha,
    pub group_by: Agrupacion,
    /// Only the sales of this operator.
    pub id_usuario: Option<i64>,
    /// Also sales that are not finalized.
    pub incluir_no_finalizadas: bool,
}

/// One period bucket of a report.
#[derive(Debug, Clone, Copy, PartialEq, Eq, Structural)]
pub struct PnlPeriodo {
    pub periodo_key: i64,
    pub ventas_brutas: i64,
    pub costo_mercaderia_vendida: i64,
    pub margen_bruto: i64,
    pub ingresos_extra: i64,
    pub egresos_operativos: i64,
    pub resultado_neto: i64,
}

/// Totals of a report.
#[derive(Debug, Clone, Copy, PartialEq, Eq, Structural)]
pub struct PnlTotales {
    pub ventas_brutas: i64,
    pub costo_mercaderia_vendida: i64,
    pub margen_bruto: i64,
    pub ingresos_extra: i64,
    pub egresos_operativos: i64,
    pub resultado_neto: i64,
}

/// A profit-and-loss report: totals and period buckets in key order.
#[derive(Debug, Clone)]
pub struct PnlReporte {
    pub totales: PnlTotales,
    pub periodos: Vec<PnlPeriodo>,
}

/// The date lies in the requested range, both ends included.
pub open spec fn en_rango(f: Fecha, q: PnlReporteInput) -> bool {
    codigo_dia(q.desde) <= codigo_dia(f) <= codigo_dia(q.hasta)
}

/// A sale counts: in the date range, finalized unless all are asked for, and
/// of the requested operator if one is.
pub open spec fn venta_incluida(v: VentaRegistro, q: PnlReporteInput) -> bool {
    &&& en_rango(v.fecha, q)
    &&& (q.incluir_no_finalizadas || v.estado == EstadoVenta::Finalizada)
    &&& (q.id_usuario matches Some(u) ==> v.id_usuario == u)
}

/// The revenue records `(key, revenue, cost of goods)` of the included sales.
pub open spec fn registros_ventas(vs: Seq<VentaRegistro>, q: PnlReporteInput) -> Seq<
    (i64, i128, i128),
>
    decreases vs.len(),
{
    if vs.len() == 0 {
        Seq::empty()
    } else {
        let r = registros_ventas(vs.drop_last(), q);
        let v = vs.last();
        if venta_incluida(v, q) {
            r.push(
                (
                    clave_periodo(v.fecha, q.group_by) as i64,
                    v.total as i128,
                    v.costo_mercaderia as i128,
                ),
            )
        } else {
            r
        }
    }
}

/// The expense records `(key, income, expense)` of the entries in range, each
/// booked on its own date.
pub open spec fn registros_gastos(gs: Seq<GastoRegistro>, q: PnlReporteInput) -> Seq<
    (i64, i128, i128),
>
    decreases gs.len(),
{
    if gs.len() == 0 {
        Seq::empty()
    } else {
        let r = registros_gastos(gs.drop_last(), q);
        let g = gs.last();
        if en_rango(g.fecha, q) {
            r.push(
                (
                    clave_periodo(g.fecha, q.group_by) as i64,
                    (if g.tipo == TipoGasto::Ingreso {
                        g.monto
                    } else {
                        0
                    }) as i128,
                    (if g.tipo == TipoGasto::Egreso {
                        g.monto
                    } else {
                        0
                    }) as i128,
                ),
            )
        } else {
            r
        }
    }
}

/// Sum of the entries of kind `t` dated in month `m` of year `y`, whether or
/// not their day falls in the requested range.
pub open spec fn total_mes(gs: Seq<GastoRegistro>, y: int, m: int, t: TipoGasto) -> int
    decreases gs.len(),
{
    if gs.len() == 0 {
        0
    } else {
        let g = gs.last();
        total_mes(gs.drop_last(), y, m, t) + if g.fecha.anio == y && g.fecha.mes == m && g.tipo
            == t {
            g.monto as int
        } else {
            0
        }
    }
}

/// `a / b` rounded to the nearest integer, halves away from zero.
pub open spec fn redondeo(a: int, b: int) -> int {
    if a >= 0 {
        (2 * a + b) / (2 * b)
    } else {
        -((-2 * a + b) / (2 * b))
    }
}

/// The days from `d` to `h`, both included.
pub open spec fn dias_rango(d: Fecha, h: Fecha) -> Seq<Fecha>
    decreases (if codigo_dia(h) >= codigo_dia(d) {
        codigo_dia(h) - codigo_dia(d) + 1
    } else {
        0
    }),
    when fecha_valida(d)
{
    if codigo_dia(d) > codigo_dia(h) {
        Seq::empty()
    } else {
        proof {
            crate::fecha::lemma_siguiente_crece(d);
        }
        seq![d] + dias_rango(dia_siguiente(d), h)
    }
}

/// The share of day `d` of its month's income and expense, each rounded on its own.
pub open spec fn registro_dia(gs: Seq<GastoRegistro>, q: PnlReporteInput, d: Fecha) -> (
    i64,
    i128,
    i128,
) {
    let dm = dias_en_mes(d.anio as int, d.mes as int);
    (
        clave_periodo(d, q.group_by) as i64,
        redondeo(total_mes(gs, d.anio as int, d.mes as int, TipoGasto::Ingreso), dm) as i128,
        redondeo(total_mes(gs, d.anio as int, d.mes as int, TipoGasto::Egreso), dm) as i128,
    )
}

/// The expense records of a report: the entries as booked when grouping by
/// month or overall; one prorated record per day of the range when grouping
/// by day or week.
pub open spec fn registros_extra(gs: Seq<GastoRegistro>, q: PnlReporteInput) -> Seq<
    (i64, i128, i128),
> {
    match q.group_by {
        Agrupacion::Dia | Agrupacion::Semana => dias_rango(q.desde, q.hasta).map_values(
            |d: Fecha| registro_dia(gs, q, d),
        ),
        _ => registros_gastos(gs, q),
    }
}

/// A period bucket holds the sums of the records of its key.
pub open spec fn periodo_correcto(
    p: PnlPeriodo,
    rv: Seq<(i64, i128, i128)>,
    rg: Seq<(i64, i128, i128)>,
) -> bool {
    let c = p.periodo_key as int;
    &&& p.ventas_brutas == suma_a(rv, c)
    &&& p.costo_mercaderia_vendida == suma_b(rv, c)
    &&& p.margen_bruto == suma_a(rv, c) - suma_b(rv, c)
    &&& p.ingresos_extra == suma_a(rg, c)
    &&& p.egresos_operativos == suma_b(rg, c)
    &&& p.resultado_neto == suma_a(rv, c) - suma_b(rv, c) + suma_a(rg, c) - suma_b(rg, c)
}

/// The six values of every key with records fit in the amount range.
pub open spec fn periodos_caben(rv: Seq<(i64, i128, i128)>, rg: Seq<(i64, i128, i128)>) -> bool {
    forall|c: int|
        #![trigger tiene_clave(rv, c)]
        #![trigger tiene_clave(rg, c)]
        (tiene_clave(rv, c) || tiene_clave(rg, c)) ==> {
            &&& cabe(suma_a(rv, c))
            &&& cabe(suma_b(rv, c))
            &&& cabe(suma_a(rv, c) - suma_b(rv, c))
            &&& cabe(suma_a(rg, c))
            &&& cabe(suma_b(rg, c))
            &&& cabe(suma_a(rv, c) - suma_b(rv, c) + suma_a(rg, c) - suma_b(rg, c))
        }
}

/// The six overall totals fit in the amount range.
pub open spec fn totales_caben(rv: Seq<(i64, i128, i128)>, rg: Seq<(i64, i128, i128)>) -> bool {
    &&& cabe(total_a(rv))
    &&& cabe(total_b(rv))
    &&& cabe(total_a(rv) - total_b(rv))
    &&& cabe(total_a(rg))
    &&& cabe(total_b(rg))
    &&& cabe(total_a(rv) - total_b(rv) + total_a(rg) - total_b(rg))
}

/// The totals are the ungrouped sums of the records.
pub open spec fn totales_correctos(
    t: PnlTotales,
    rv: Seq<(i64, i128, i128)>,
    rg: Seq<(i64, i128, i128)>,
) -> bool {
    &&& t.ventas_brutas == total_a(rv)
    &&& t.costo_mercaderia_vendida == total_b(rv)
    &&& t.margen_bruto == total_a(rv) - total_b(rv)
    &&& t.ingresos_extra == total_a(rg)
    &&& t.egresos_operativos == total_b(rg)
    &&& t.resultado_neto == total_a(rv) - total_b(rv) + total_a(rg) - total_b(rg)
}

/// A report over the records: one bucket per key that has records, in
/// increasing key order, each with the sums of its key, and the totals.
pub open spec fn reporte_correcto(
    periodos: Seq<PnlPeriodo>,
    totales: PnlTotales,
    rv: Seq<(i64, i128, i128)>,
    rg: Seq<(i64, i128, i128)>,
) -> bool {
    &&& forall|i: int, j: int|
        0 <= i < j < periodos.len() ==> #[trigger] periodos[i].periodo_key
            < #[trigger] periodos[j].periodo_key
    &&& forall|c: int|
        #![trigger tiene_clave(rv, c)]
        #![trigger tiene_clave(rg, c)]
        (tiene_clave(rv, c) || tiene_clave(rg, c)) <==> exists|i: int|
            0 <= i < periodos.len() && periodos[i].periodo_key == c
    &&& forall|i: int| 0 <= i < periodos.len() ==> periodo_correcto(#[trigger] periodos[i], rv, rg)
    &&& totales_correctos(totales, rv, rg)
}

/// The request can be served: real dates, the last one before 9999-12-31,
/// and not too many sales or entries.
pub open spec fn entrada_valida(
    q: PnlReporteInput,
    vs: Seq<VentaRegistro>,
    gs: Seq<GastoRegistro>,
) -> bool {
    &&& fecha_valida(q.desde)
    &&& fecha_valida(q.hasta)
    &&& codigo_dia(q.hasta) < 99991231
    &&& vs.len() <= COTA_REGISTROS
    &&& gs.len() <= COTA_REGISTROS
    &&& forall|i: int| 0 <= i < vs.len() ==> fecha_valida(#[trigger] vs[i].fecha)
    &&& forall|i: int| 0 <= i < gs.len() ==> fecha_valida(#[trigger] gs[i].fecha)
}

fn en_rango_exec(f: &Fecha, q: &PnlReporteInput) -> (r: bool)
    requires
        fecha_valida(*f),
        fecha_valida(q.desde),
        fecha_valida(q.hasta),
    ensures
        r == en_rango(*f, *q),
{
    q.desde.codigo() <= f.codigo() && f.codigo() <= q.hasta.codigo()
}

fn registros_de_ventas(q: &PnlReporteInput, ventas: &Vec<VentaRegistro>) -> (r: Vec<(i64, i128, i128)>)
    requires
        entrada_valida(*q, ventas@, Seq::empty()),
    ensures
        r@ == registros_ventas(ventas@, *q),
        acotados(r@),
{
    let mut r: Vec<(i64, i128, i128)> = Vec::new();
    let mut i: usize = 0;
    while i < ventas.len()
        invariant
            entrada_valida(*q, ventas@, Seq::empty()),
            i <= ventas.len(),
            r@ == registros_ventas(ventas@.take(i as int), *q),
            r.len() <= i,
            acotados(r@),
        decreases ventas.len() - i,
    {
        proof {
            assert(ventas@.take(i + 1).drop_last() =~= ventas@.take(i as int));
        }
        let v = ventas[i];
        assert(fecha_valida(ventas@[i as int].fecha));
        let incluida = en_rango_exec(&v.fecha, q) && (q.incluir_no_finalizadas || v.estado
            == EstadoVenta::Finalizada) && match q.id_usuario {
            Some(u) => v.id_usuario == u,
            None => true,
        };
        if incluida {
            r.push((v.fecha.clave(q.group_by), v.total as i128, v.costo_mercaderia as i128));
        }
        i = i + 1;
    }
    assert(ventas@.take(ventas.len() as int) =~= ventas@);
    r
}

fn registros_de_gastos(q: &PnlReporteInput, gastos: &Vec<GastoRegistro>) -> (r: Vec<(i64, i128, i128)>)
    requires
        entrada_valida(*q, Seq::empty(), gastos@),
    ensures
        r@ == registros_gastos(gastos@, *q),
        acotados(r@),
{
    let mut r: Vec<(i64, i128, i128)> = Vec::new();
    let mut i: usize = 0;
    while i < gastos.len()
        invariant
            entrada_valida(*q, Seq::empty(), gastos@),
            i <= gastos.len(),
            r@ == registros_gastos(gastos@.take(i as int), *q),
            r.len() <= i,
            acotados(r@),
        decreases gastos.len() - i,
    {
        proof {
            assert(gastos@.take(i + 1).drop_last() =~= gastos@.take(i as int));
        }
        let g = &gastos[i];
        assert(fecha_valida(gastos@[i as int].fecha));
        if en_rango_exec(&g.fecha, q) {
            let ing: i64 = if g.tipo == TipoGasto::Ingreso {
                g.monto
            } else {
                0
            };
            let egr: i64 = if g.tipo == TipoGasto::Egreso {
                g.monto
            } else {
                0
            };
            r.push((g.fecha.clave(q.group_by), ing as i128, egr as i128));
        }
        i = i + 1;
    }
    assert(gastos@.take(gastos.len() as int) =~= gastos@);
    r
}

fn total_del_mes(gastos: &Vec<GastoRegistro>, y: i64, m: i64, t: TipoGasto) -> (r: i128)
    requires
        gastos.len() <= COTA_REGISTROS,
    ensures
        r == total_mes(gastos@, y as int, m as int, t),
        -gastos.len() * 0x8000_0000_0000_0000 <= r <= gastos.len() * 0x8000_0000_0000_0000,
{
    let mut acc: i128 = 0;
    let mut i: usize = 0;
    while i < gastos.len()
        invariant
            gastos.len() <= COTA_REGISTROS,
            i <= gastos.len(),
            acc == total_mes(gastos@.take(i as int), y as int, m as int, t),
            -i * 0x8000_0000_0000_0000 <= acc <= i * 0x8000_0000_0000_0000,
        decreases gastos.len() - i,
    {
        proof {
            assert(gastos@.take(i + 1).drop_last() =~= gastos@.take(i as int));
        }
        let g = &gastos[i];
        if g.fecha.anio == y && g.fecha.mes == m && g.tipo == t {
            acc = acc + g.monto as i128;
        }
        i = i + 1;
    }
    assert(gastos@.take(gastos.len() as int) =~= gastos@);
    acc
}

/// `a / b` rounded to the nearest integer, halves away from zero.
pub fn redondear(a: i128, b: i64) -> (r: i128)
    requires
        b > 0,
        -0x1_0000_0000_0000_0000_0000_0000 <= a <= 0x1_0000_0000_0000_0000_0000_0000,
    ensures
        r == redondeo(a as int, b as int),
        -0x1_0000_0000_0000_0000_0000_0000 <= r <= 0x1_0000_0000_0000_0000_0000_0000,
{
    let doble_b: i128 = 2 * b as i128;
    if a >= 0 {
        let r = (2 * a + b as i128) / doble_b;
        proof {
            assert((2 * a + b) / (2 * b) <= a) by (nonlinear_arith)
                requires
                    a >= 0,
                    b > 0,
            {
                vstd::arithmetic::div_mod::lemma_fundamental_div_mod(2 * a + b, 2 * b);
            }
            assert((2 * a + b) / (2 * b) >= 0) by (nonlinear_arith)
                requires
                    a >= 0,
                    b > 0,
            {
                vstd::arithmetic::div_mod::lemma_div_pos_is_pos(2 * a + b, 2 * b);
            }
        }
        r
    } else {
        let r = (-2 * a + b as i128) / doble_b;
        proof {
            assert((-2 * a + b) / (2 * b) <= -a) by (nonlinear_arith)
                requires
                    a < 0,
                    b > 0,
            {
                vstd::arithmetic::div_mod::lemma_fundamental_div_mod(-2 * a + b, 2 * b);
            }
            assert((-2 * a + b) / (2 * b) >= 0) by (nonlinear_arith)
                requires
                    a < 0,
                    b > 0,
            {
                vstd::arithmetic::div_mod::lemma_div_pos_is_pos(-2 * a + b, 2 * b);
            }
        }
        -r
    }
}

fn registros_de_prorrateo(q: &PnlReporteInput, gastos: &Vec<GastoRegistro>) -> (r: Vec<
    (i64, i128, i128),
>)
    requires
        entrada_valida(*q, Seq::empty(), gastos@),
    ensures
        r@ == dias_rango(q.desde, q.hasta).map_values(|d: Fecha| registro_dia(gastos@, *q, d)),
        acotados(r@),
{
    let ghost f = |d: Fecha| registro_dia(gastos@, *q, d);
    let ghost h = q.hasta;
    let mut r: Vec<(i64, i128, i128)> = Vec::new();
    let ghost mut hechos: Seq<Fecha> = Seq::empty();
    let mut d = q.desde;
    let fin = q.hasta.codigo();
    while d.codigo() <= fin
        invariant
            entrada_valida(*q, Seq::empty(), gastos@),
            fin == codigo_dia(h),
            h == q.hasta,
            fecha_valida(d),
            hechos + dias_rango(d, h) == dias_rango(q.desde, h),
            r@ == hechos.map_values(f),
            f == (|d: Fecha| registro_dia(gastos@, *q, d)),
            hechos.len() <= codigo_dia(d) - codigo_dia(q.desde),
            codigo_dia(d) <= 100000000,
            acotados(r@),
        decreases (if codigo_dia(h) >= codigo_dia(d) {
            codigo_dia(h) - codigo_dia(d) + 1
        } else {
            0
        }),
    {
        let dm = crate::fecha::dias_del_mes(d.anio, d.mes);
        let ing = total_del_mes(gastos, d.anio, d.mes, TipoGasto::Ingreso);
        let egr = total_del_mes(gastos, d.anio, d.mes, TipoGasto::Egreso);
        let ci = redondear(ing, dm);
        let ce = redondear(egr, dm);
        let ghost viejo = r@;
        r.push((d.clave(q.group_by), ci, ce));
        proof {
            crate::fecha::lemma_siguiente_crece(d);
            assert(dias_rango(d, h) == seq![d] + dias_rango(dia_siguiente(d), h));
            assert(hechos.push(d) + dias_rango(dia_siguiente(d), h) =~= hechos + (seq![d]
                + dias_rango(dia_siguiente(d), h)));
            assert(r@ =~= hechos.push(d).map_values(f));
            hechos = hechos.push(d);
        }
        d = d.siguiente();
    }
    assert(dias_rango(d, h) =~= Seq::<Fecha>::empty());
    assert(hechos =~= dias_rango(q.desde, h));
    r
}

/// Builds a profit-and-loss report from the sales and the expense ledger.
/// Sales count when in the date range, finalized (unless all are asked for)
/// and of the requested operator (if any); each is booked in the period of its
/// date. Expense entries in range are booked on their own date when grouping
/// by month or overall; when grouping by day or week each day of the range
/// gets the income and expense of its whole calendar month divided by the
/// days of the month, each rounded on its own. Periods come in increasing key order, one per key
/// that has a sale or an expense record; margin is revenue minus cost of
/// goods, net result is margin plus extra income minus operating expense.
/// Fails with `InvalidInput` when the request is not valid or an amount of
/// the report leaves the amount range.
pub fn pnl_reporte(q: &PnlReporteInput, ventas: &Vec<VentaRegistro>, gastos: &Vec<GastoRegistro>) -> (r: Result<
    PnlReporte,
    LedgerError,
>)
    ensures
        r matches Err(e) ==> e == LedgerError::InvalidInput,
        !entrada_valida(*q, ventas@, gastos@) ==> r is Err,
        entrada_valida(*q, ventas@, gastos@) ==> {
            let rv = registros_ventas(ventas@, *q);
            let rg = registros_extra(gastos@, *q);
            &&& (r is Ok <==> (periodos_caben(rv, rg) && totales_caben(rv, rg)))
            &&& (r matches Ok(rep) ==> reporte_correcto(rep.periodos@, rep.totales, rv, rg))
        },
{
    if !q.desde.es_valida() || !q.hasta.es_valida() || q.hasta.codigo() >= 99991231
        || ventas.len() > COTA_REGISTROS || gastos.len() > COTA_REGISTROS {
        return Err(LedgerError::InvalidInput);
    }
    let mut i: usize = 0;
    while i < ventas.len()
        invariant
            i <= ventas.len(),
            forall|t: int| 0 <= t < i ==> fecha_valida(#[trigger] ventas@[t].fecha),
        decreases ventas.len() - i,
    {
        if !ventas[i].fecha.es_valida() {
            return Err(LedgerError::InvalidInput);
        }
        i = i + 1;
    }
    let mut i: usize = 0;
    while i < gastos.len()
        invariant
            i <= gastos.len(),
            forall|t: int| 0 <= t < i ==> fecha_valida(#[trigger] gastos@[t].fecha),
        decreases gastos.len() - i,
    {
        if !gastos[i].fecha.es_valida() {
            return Err(LedgerError::InvalidInput);
        }
        i = i + 1;
    }
    assert(entrada_valida(*q, ventas@, gastos@));
    let rv = registros_de_ventas(q, ventas);
    let rg = match q.group_by {
        Agrupacion::Dia | Agrupacion::Semana => registros_de_prorrateo(q, gastos),
        _ => registros_de_gastos(q, gastos),
    };
    let ghost sv = registros_ventas(ventas@, *q);
    let ghost sg = registros_extra(gastos@, *q);
    assert(rv@ == sv && rg@ == sg);
    let mut k: Vec<i64> = Vec::new();
    let ghost claves_vacias = k@;
    claves_de(&rv, &mut k);
    let ghost claves_ventas = k@;
    claves_de(&rg, &mut k);
    assert(forall|x: i64| k@.contains(x) <==> (claves_ventas.contains(x) || tiene_clave(rg@, x as int)));
    assert forall|x: i64| k@.contains(x) <==> (tiene_clave(sv, x as int) || tiene_clave(sg, x as int)) by {
        assert(claves_ventas.contains(x) <==> (claves_vacias.contains(x) || tiene_clave(rv@, x as int)));
        assert(k@.contains(x) <==> (claves_ventas.contains(x) || tiene_clave(rg@, x as int)));
        assert(!claves_vacias.contains(x));
    }
    let mut periodos: Vec<PnlPeriodo> = Vec::new();
    let mut j: usize = 0;
    while j < k.len()
        invariant
            rv@ == sv,
            rg@ == sg,
            sv == registros_ventas(ventas@, *q),
            sg == registros_extra(gastos@, *q),
            acotados(sv),
            acotados(sg),
            ordenada(k@),
            forall|x: i64| k@.contains(x) <==> (tiene_clave(sv, x as int) || tiene_clave(sg, x as int)),
            j <= k.len(),
            periodos.len() == j,
            forall|t: int| 0 <= t < j ==> (#[trigger] periodos@[t]).periodo_key == k@[t],
            forall|t: int| 0 <= t < j ==> periodo_correcto(#[trigger] periodos@[t], sv, sg),
        decreases k.len() - j,
    {
        let c = k[j];
        let (ventas_c, costos_c) = sumar_clave(&rv, c);
        let (ingresos_c, egresos_c) = sumar_clave(&rg, c);
        let margen = ventas_c - costos_c;
        let neto = margen + ingresos_c - egresos_c;
        let min = i64::MIN as i128;
        let max = i64::MAX as i128;
        if ventas_c < min || ventas_c > max || costos_c < min || costos_c > max || margen < min || margen > max || ingresos_c < min
            || ingresos_c > max || egresos_c < min || egresos_c > max || neto < min || neto > max {
            proof {
                assert(k@.contains(c)) by {
                    assert(k@[j as int] == c);
                }
                assert(tiene_clave(sv, c as int) || tiene_clave(sg, c as int));
                assert(!periodos_caben(sv, sg));
            }
            return Err(LedgerError::InvalidInput);
        }
        periodos.push(
            PnlPeriodo {
                periodo_key: c,
                ventas_brutas: ventas_c as i64,
                costo_mercaderia_vendida: costos_c as i64,
                margen_bruto: margen as i64,
                ingresos_extra: ingresos_c as i64,
                egresos_operativos: egresos_c as i64,
                resultado_neto: neto as i64,
            },
        );
        j = j + 1;
    }
    let (t_ventas, t_costos) = crate::agregado::sumar_todo(&rv);
    let (t_ingresos, t_egresos) = crate::agregado::sumar_todo(&rg);
    let tm = t_ventas - t_costos;
    let tn = tm + t_ingresos - t_egresos;
    let min = i64::MIN as i128;
    let max = i64::MAX as i128;
    proof {
        assert forall|c: int|
            #![trigger tiene_clave(sv, c)]
            #![trigger tiene_clave(sg, c)]
            (tiene_clave(sv, c) || tiene_clave(sg, c)) implies {
                &&& cabe(suma_a(sv, c))
                &&& cabe(suma_b(sv, c))
                &&& cabe(suma_a(sv, c) - suma_b(sv, c))
                &&& cabe(suma_a(sg, c))
                &&& cabe(suma_b(sg, c))
                &&& cabe(suma_a(sv, c) - suma_b(sv, c) + suma_a(sg, c) - suma_b(sg, c))
            } by {
            lemma_clave_en_rango(sv, sg, c);
            let x = c as i64;
            assert(k@.contains(x));
            let t = choose|t: int| 0 <= t < k@.len() && k@[t] == x;
            assert(periodo_correcto(periodos@[t], sv, sg));
        }
    }
    if t_ventas < min || t_ventas > max || t_costos < min || t_costos > max || tm < min || tm > max || t_ingresos < min || t_ingresos
        > max || t_egresos < min || t_egresos > max || tn < min || tn > max {
        return Err(LedgerError::InvalidInput);
    }
    let totales = PnlTotales {
        ventas_brutas: t_ventas as i64,
        costo_mercaderia_vendida: t_costos as i64,
        margen_bruto: tm as i64,
        ingresos_extra: t_ingresos as i64,
        egresos_operativos: t_egresos as i64,
        resultado_neto: tn as i64,
    };
    proof {
        assert forall|a: int, b: int|
            0 <= a < b < periodos@.len() implies #[trigger] periodos@[a].periodo_key
            < #[trigger] periodos@[b].periodo_key by {
            assert(periodos@[a].periodo_key == k@[a] && periodos@[b].periodo_key == k@[b]);
        }
        assert forall|c: int|
            #![trigger tiene_clave(sv, c)]
            #![trigger tiene_clave(sg, c)]
            (tiene_clave(sv, c) || tiene_clave(sg, c)) <==> exists|i: int|
                0 <= i < periodos@.len() && periodos@[i].periodo_key == c by {
            if tiene_clave(sv, c) || tiene_clave(sg, c) {
                lemma_clave_en_rango(sv, sg, c);
                let x = c as i64;
                assert(k@.contains(x));
                let t = choose|t: int| 0 <= t < k@.len() && k@[t] == x;
                assert(periodos@[t].periodo_key == c);
            }
            if exists|i: int| 0 <= i < periodos@.len() && periodos@[i].periodo_key == c {
                let i = choose|i: int| 0 <= i < periodos@.len() && periodos@[i].periodo_key == c;
                assert(k@[i] == periodos@[i].periodo_key);
                let x = k@[i];
                assert(k@.contains(x));
            }
        }
    }
    Ok(PnlReporte { totales, periodos })
}

/// A key that some record has is a key value of that record, hence an `i64`.
proof fn lemma_clave_en_rango(rv: Seq<(i64, i128, i128)>, rg: Seq<(i64, i128, i128)>, c: int)
    requires
        tiene_clave(rv, c) || tiene_clave(rg, c),
    ensures
        i64::MIN <= c <= i64::MAX,
        tiene_clave(rv, (c as i64) as int) || tiene_clave(rg, (c as i64) as int),
{
    if tiene_clave(rv, c) {
        let i = choose|i: int| 0 <= i < rv.len() && rv[i].0 == c;
    } else {
        let i = choose|i: int| 0 <= i < rg.len() && rg[i].0 == c;
    }
}

/// Cost of goods of the lines: quantity times snapshotted cost, summed.
pub open spec fn costo_lineas(s: Seq<LineaVenta>) -> int
    decreases s.len(),
{
    if s.len() == 0 {
        0
    } else {
        costo_lineas(s.drop_last()) + s.last().cantidad * s.last().costo_unitario_en_venta
    }
}

/// The record the rollup reads for sale `v`, dated `fecha`: its identifier,
/// operator, state and total, and the cost of goods of its lines. Nothing when
/// the cost of a line or of the whole sale leaves the amount range.
pub fn venta_registro(v: &Venta, fecha: Fecha) -> (r: Option<VentaRegistro>)
    ensures
        r is Some <==> (costos_caben(v.items@) && cabe(costo_lineas(v.items@))),
        r matches Some(x) ==> x == (VentaRegistro {
            id_venta: v.id_venta,
            id_usuario: v.id_usuario,
            fecha,
            estado: v.estado,
            total: v.total,
            costo_mercaderia: costo_lineas(v.items@) as i64,
        }),
{
    let mut acc: i128 = 0;
    let mut i: usize = 0;
    while i < v.items.len()
        invariant
            i <= v.items.len(),
            forall|t: int|
                0 <= t < i ==> cabe(#[trigger] v.items@[t].cantidad * v.items@[t].costo_unitario_en_venta),
            acc == costo_lineas(v.items@.take(i as int)),
            -i * 0x8000_0000_0000_0000 <= acc <= i * 0x8000_0000_0000_0000,
        decreases v.items.len() - i,
    {
        let l = &v.items[i];
        proof {
            assert(v.items@.take(i + 1).drop_last() =~= v.items@.take(i as int));
            assert(-0x4000_0000_0000_0000_0000_0000_0000_0000 <= l.cantidad * l.costo_unitario_en_venta
                <= 0x4000_0000_0000_0000_0000_0000_0000_0000) by (nonlinear_arith)
                requires
                    i64::MIN <= l.cantidad <= i64::MAX,
                    i64::MIN <= l.costo_unitario_en_venta <= i64::MAX,
            ;
        }
        let c: i128 = l.cantidad as i128 * l.costo_unitario_en_venta as i128;
        if c < i64::MIN as i128 || c > i64::MAX as i128 {
            assert(!costos_caben(v.items@)) by {
                assert(!cabe(v.items@[i as int].cantidad * v.items@[i as int].costo_unitario_en_venta));
            }
            return None;
        }
        acc = acc + c;
        i = i + 1;
    }
    assert(v.items@.take(v.items.len() as int) =~= v.items@);
    if acc < i64::MIN as i128 || acc > i64::MAX as i128 {
        return None;
    }
    Some(
        VentaRegistro {
            id_venta: v.id_venta,
            id_usuario: v.id_usuario,
            fecha,
            estado: v.estado,
            total: v.total,
            costo_mercaderia: acc as i64,
        },
    )
}

/// The grouping named by a request token: `"dia"`, `"semana"`, `"mes"` or
/// `"total"`; any other token is refused.
pub fn validar_group_by(group_by: &str) -> (r: Result<Agrupacion, LedgerError>)
    ensures
        group_by@ == "dia"@ ==> r == Ok::<Agrupacion, LedgerError>(Agrupacion::Dia),
        group_by@ == "semana"@ ==> r == Ok::<Agrupacion, LedgerError>(Agrupacion::Semana),
        group_by@ == "mes"@ ==> r == Ok::<Agrupacion, LedgerError>(Agrupacion::Mes),
        group_by@ == "total"@ ==> r == Ok::<Agrupacion, LedgerError>(Agrupacion::Total),
        group_by@ != "dia"@ && group_by@ != "semana"@ && group_by@ != "mes"@ && group_by@
            != "total"@ ==> r == Err::<Agrupacion, LedgerError>(LedgerError::InvalidInput),
{
    proof {
        reveal_strlit("dia");
        reveal_strlit("semana");
        reveal_strlit("mes");
        reveal_strlit("total");
        assert("dia"@[0] != "semana"@[0] && "dia"@[0] != "mes"@[0] && "dia"@[0] != "total"@[0]);
        assert("semana"@[0] != "mes"@[0] && "semana"@[0] != "total"@[0]);
        assert("mes"@[0] != "total"@[0]);
    }
    if texto_igual(group_by, "dia") {
        Ok(Agrupacion::Dia)
    } else if texto_igual(group_by, "semana") {
        Ok(Agrupacion::Semana)
    } else if texto_igual(group_by, "mes") {
        Ok(Agrupacion::Mes)
    } else if texto_igual(group_by, "total") {
        Ok(Agrupacion::Total)
    } else {
        Err(LedgerError::InvalidInput)
    }
}

/// Name of the expense policy of a grouping: daily proration of monthly
/// expenses by day or week, none by month or overall.
pub fn criterio_gastos_fijos(g: Agrupacion) -> (r: &'static str)
    ensures
        (g == Agrupacion::Dia || g == Agrupacion::Semana) ==> r@ == "even_daily_proration"@,
        (g == Agrupacion::Mes || g == Agrupacion::Total) ==> r@ == "no_proration"@,
{
    match g {
        Agrupacion::Dia | Agrupacion::Semana => "even_daily_proration",
        Agrupacion::Mes | Agrupacion::Total => "no_proration",
    }
}

/// The metadata of a report: the requested range and grouping echoed back,
/// the generation time, the currency, the cost policy (costs as snapshotted
/// at sale time) and the expense policy of the grouping.
pub fn pnl_meta(
    desde: String,
    hasta: String,
    group_by: String,
    g: Agrupacion,
    generado_en: String,
) -> (r: PnlMeta)
    ensures
        r.desde == desde,
        r.hasta == hasta,
        r.group_by == group_by,
        r.generado_en == generado_en,
        r.moneda@ == "ARS"@,
        r.criterio_costos@ == "snapshot_en_venta"@,
        (g == Agrupacion::Dia || g == Agrupacion::Semana) ==> r.criterio_gastos_fijos@
            == "even_daily_proration"@,
        (g == Agrupacion::Mes || g == Agrupacion::Total) ==> r.criterio_gastos_fijos@
            == "no_proration"@,
{
    let criterio = criterio_gastos_fijos(g);
    PnlMeta {
        desde,
        hasta,
        group_by,
        moneda: <String as StringExecFns>::from_str("ARS"),
        generado_en,
        criterio_costos: <String as StringExecFns>::from_str("snapshot_en_venta"),
        criterio_gastos_fijos: <String as StringExecFns>::from_str(criterio),
    }
}

/// Sum of the revenue of the sales that count, without grouping.
pub open spec fn ventas_sin_agrupar(vs: Seq<VentaRegistro>, q: PnlReporteInput) -> int
    decreases vs.len(),
{
    if vs.len() == 0 {
        0
    } else {
        ventas_sin_agrupar(vs.drop_last(), q) + if venta_incluida(vs.last(), q) {
            vs.last().total as int
        } else {
            0
        }
    }
}

/// Sum of the cost of goods of the sales that count, without grouping.
pub open spec fn costos_sin_agrupar(vs: Seq<VentaRegistro>, q: PnlReporteInput) -> int
    decreases vs.len(),
{
    if vs.len() == 0 {
        0
    } else {
        costos_sin_agrupar(vs.drop_last(), q) + if venta_incluida(vs.last(), q) {
            vs.last().costo_mercaderia as int
        } else {
            0
        }
    }
}

/// Sum of the entries in range of kind `t`, without grouping.
pub open spec fn gastos_sin_agrupar(gs: Seq<GastoRegistro>, q: PnlReporteInput, t: TipoGasto) -> int
    decreases gs.len(),
{
    if gs.len() == 0 {
        0
    } else {
        gastos_sin_agrupar(gs.drop_last(), q, t) + if en_rango(gs.last().fecha, q)
            && gs.last().tipo == t {
            gs.last().monto as int
        } else {
            0
        }
    }
}

/// Sums of the period buckets: revenue, cost of goods, extra income, operating expense.
pub open spec fn suma_periodos(p: Seq<PnlPeriodo>) -> (int, int, int, int)
    decreases p.len(),
{
    if p.len() == 0 {
        (0, 0, 0, 0)
    } else {
        let s = suma_periodos(p.drop_last());
        let x = p.last();
        (
            s.0 + x.ventas_brutas,
            s.1 + x.costo_mercaderia_vendida,
            s.2 + x.ingresos_extra,
            s.3 + x.egresos_operativos,
        )
    }
}

/// The keys of the period buckets, in order.
pub open spec fn claves_periodos(p: Seq<PnlPeriodo>) -> Seq<i64> {
    p.map_values(|x: PnlPeriodo| x.periodo_key)
}

proof fn lemma_ventas_registros(vs: Seq<VentaRegistro>, q: PnlReporteInput)
    ensures
        total_a(registros_ventas(vs, q)) == ventas_sin_agrupar(vs, q),
        total_b(registros_ventas(vs, q)) == costos_sin_agrupar(vs, q),
    decreases vs.len(),
{
    if vs.len() > 0 {
        lemma_ventas_registros(vs.drop_last(), q);
        let r = registros_ventas(vs.drop_last(), q);
        if venta_incluida(vs.last(), q) {
            let x = (
                clave_periodo(vs.last().fecha, q.group_by) as i64,
                vs.last().total as i128,
                vs.last().costo_mercaderia as i128,
            );
            assert(r.push(x).drop_last() =~= r);
        }
    }
}

proof fn lemma_gastos_registros(gs: Seq<GastoRegistro>, q: PnlReporteInput)
    ensures
        total_a(registros_gastos(gs, q)) == gastos_sin_agrupar(gs, q, TipoGasto::Ingreso),
        total_b(registros_gastos(gs, q)) == gastos_sin_agrupar(gs, q, TipoGasto::Egreso),
    decreases gs.len(),
{
    if gs.len() > 0 {
        lemma_gastos_registros(gs.drop_last(), q);
        let r = registros_gastos(gs.drop_last(), q);
        let g = gs.last();
        if en_rango(g.fecha, q) {
            let x = (
                clave_periodo(g.fecha, q.group_by) as i64,
                (if g.tipo == TipoGasto::Ingreso {
                    g.monto
                } else {
                    0
                }) as i128,
                (if g.tipo == TipoGasto::Egreso {
                    g.monto
                } else {
                    0
                }) as i128,
            );
            assert(r.push(x).drop_last() =~= r);
        }
    }
}

proof fn lemma_suma_periodos(
    p: Seq<PnlPeriodo>,
    rv: Seq<(i64, i128, i128)>,
    rg: Seq<(i64, i128, i128)>,
)
    requires
        forall|i: int| 0 <= i < p.len() ==> periodo_correcto(#[trigger] p[i], rv, rg),
    ensures
        suma_periodos(p).0 == suma_a_por_claves(rv, claves_periodos(p)),
        suma_periodos(p).1 == suma_b_por_claves(rv, claves_periodos(p)),
        suma_periodos(p).2 == suma_a_por_claves(rg, claves_periodos(p)),
        suma_periodos(p).3 == suma_b_por_claves(rg, claves_periodos(p)),
    decreases p.len(),
{
    if p.len() > 0 {
        let d = p.drop_last();
        assert forall|i: int| 0 <= i < d.len() implies periodo_correcto(#[trigger] d[i], rv, rg) by {
            assert(d[i] == p[i]);
        }
        lemma_suma_periodos(d, rv, rg);
        assert(claves_periodos(p).drop_last() =~= claves_periodos(d));
        assert(periodo_correcto(p[p.len() - 1], rv, rg));
    }
}

proof fn lemma_claves_cubren(
    p: Seq<PnlPeriodo>,
    t: PnlTotales,
    rv: Seq<(i64, i128, i128)>,
    rg: Seq<(i64, i128, i128)>,
)
    requires
        reporte_correcto(p, t, rv, rg),
    ensures
        ordenada(claves_periodos(p)),
        forall|i: int| 0 <= i < rv.len() ==> claves_periodos(p).contains(#[trigger] rv[i].0),
        forall|i: int| 0 <= i < rg.len() ==> claves_periodos(p).contains(#[trigger] rg[i].0),
{
    let k = claves_periodos(p);
    assert forall|i: int, j: int| 0 <= i < j < k.len() implies k[i] < k[j] by {
        assert(p[i].periodo_key < p[j].periodo_key);
    }
    assert forall|i: int| 0 <= i < rv.len() implies k.contains(#[trigger] rv[i].0) by {
        let c = rv[i].0 as int;
        assert(tiene_clave(rv, c));
        let t = choose|t: int| 0 <= t < p.len() && p[t].periodo_key == c;
        assert(k[t] == rv[i].0);
    }
    assert forall|i: int| 0 <= i < rg.len() implies k.contains(#[trigger] rg[i].0) by {
        let c = rg[i].0 as int;
        assert(tiene_clave(rg, c));
        let t = choose|t: int| 0 <= t < p.len() && p[t].periodo_key == c;
        assert(k[t] == rg[i].0);
    }
}

/// Reconciliation: when grouping by month or overall, the period buckets of a
/// report add up exactly to the ungrouped sums of revenue, cost of goods,
/// extra income and operating expense over the same range and filters, and
/// so do the report's totals.
pub proof fn lemma_conciliacion(
    q: PnlReporteInput,
    vs: Seq<VentaRegistro>,
    gs: Seq<GastoRegistro>,
    periodos: Seq<PnlPeriodo>,
    totales: PnlTotales,
)
    requires
        q.group_by == Agrupacion::Mes || q.group_by == Agrupacion::Total,
        reporte_correcto(periodos, totales, registros_ventas(vs, q), registros_extra(gs, q)),
    ensures
        suma_periodos(periodos).0 == ventas_sin_agrupar(vs, q),
        suma_periodos(periodos).1 == costos_sin_agrupar(vs, q),
        suma_periodos(periodos).2 == gastos_sin_agrupar(gs, q, TipoGasto::Ingreso),
        suma_periodos(periodos).3 == gastos_sin_agrupar(gs, q, TipoGasto::Egreso),
        totales.ventas_brutas == ventas_sin_agrupar(vs, q),
        totales.costo_mercaderia_vendida == costos_sin_agrupar(vs, q),
        totales.ingresos_extra == gastos_sin_agrupar(gs, q, TipoGasto::Ingreso),
        totales.egresos_operativos == gastos_sin_agrupar(gs, q, TipoGasto::Egreso),
{
    let rv = registros_ventas(vs, q);
    let rg = registros_extra(gs, q);
    assert(rg == registros_gastos(gs, q));
    lemma_claves_cubren(periodos, totales, rv, rg);
    lemma_suma_periodos(periodos, rv, rg);
    lemma_particion(rv, claves_periodos(periodos));
    lemma_particion(rg, claves_periodos(periodos));
    lemma_ventas_registros(vs, q);
    lemma_gastos_registros(gs, q);
}

proof fn lemma_ordenadas_iguales(a: Seq<i64>, b: Seq<i64>)
    requires
        ordenada(a),
        ordenada(b),
        forall|x: i64| a.contains(x) <==> b.contains(x),
    ensures
        a == b,
    decreases a.len() + b.len(),
{
    if a.len() == 0 {
        if b.len() > 0 {
            assert(b.contains(b[0]));
        }
        assert(a =~= b);
    } else if b.len() == 0 {
        assert(a.contains(a[0]));
    } else {
        let x = a.last();
        let y = b.last();
        assert(a.contains(x));
        assert(b.contains(y));
        let i = choose|i: int| 0 <= i < b.len() && b[i] == x;
        let j = choose|j: int| 0 <= j < a.len() && a[j] == y;
        assert(x <= y) by {
            if i < b.len() - 1 {
                assert(b[i] < b[b.len() - 1]);
            }
        }
        assert(y <= x) by {
            if j < a.len() - 1 {
                assert(a[j] < a[a.len() - 1]);
            }
        }
        let resto_a = a.drop_last();
        let resto_b = b.drop_last();
        assert forall|z: i64| resto_a.contains(z) <==> resto_b.contains(z) by {
            if resto_a.contains(z) {
                let t = choose|t: int| 0 <= t < resto_a.len() && resto_a[t] == z;
                assert(a[t] == z && z < x);
                assert(b.contains(z));
                let u = choose|u: int| 0 <= u < b.len() && b[u] == z;
                assert(u != b.len() - 1);
                assert(resto_b[u] == z);
            }
            if resto_b.contains(z) {
                let t = choose|t: int| 0 <= t < resto_b.len() && resto_b[t] == z;
                assert(b[t] == z && z < y);
                assert(a.contains(z));
                let u = choose|u: int| 0 <= u < a.len() && a[u] == z;
                assert(u != a.len() - 1);
                assert(resto_a[u] == z);
            }
        }
        assert forall|s: int, t: int| 0 <= s < t < resto_a.len() implies resto_a[s] < resto_a[t] by {
            assert(resto_a[s] == a[s] && resto_a[t] == a[t]);
        }
        assert forall|s: int, t: int| 0 <= s < t < resto_b.len() implies resto_b[s] < resto_b[t] by {
            assert(resto_b[s] == b[s] && resto_b[t] == b[t]);
        }
        lemma_ordenadas_iguales(resto_a, resto_b);
        assert(a =~= resto_a.push(x));
        assert(b =~= resto_b.push(y));
    }
}

/// A report is a function of the sales, the ledger and the request: any two
/// reports built from the same ones are identical.
pub proof fn lemma_reporte_determinista(
    q: PnlReporteInput,
    vs: Seq<VentaRegistro>,
    gs: Seq<GastoRegistro>,
    pa: Seq<PnlPeriodo>,
    ta: PnlTotales,
    pb: Seq<PnlPeriodo>,
    tb: PnlTotales,
)
    requires
        reporte_correcto(pa, ta, registros_ventas(vs, q), registros_extra(gs, q)),
        reporte_correcto(pb, tb, registros_ventas(vs, q), registros_extra(gs, q)),
    ensures
        pa == pb,
        ta == tb,
{
    let rv = registros_ventas(vs, q);
    let rg = registros_extra(gs, q);
    let ka = claves_periodos(pa);
    let kb = claves_periodos(pb);
    lemma_claves_cubren(pa, ta, rv, rg);
    lemma_claves_cubren(pb, tb, rv, rg);
    assert forall|x: i64| ka.contains(x) <==> kb.contains(x) by {
        let c = x as int;
        if ka.contains(x) {
            let i = choose|i: int| 0 <= i < ka.len() && ka[i] == x;
            assert(pa[i].periodo_key == c);
            assert(tiene_clave(rv, c) || tiene_clave(rg, c));
            let j = choose|j: int| 0 <= j < pb.len() && pb[j].periodo_key == c;
            assert(kb[j] == x);
        }
        if kb.contains(x) {
            let i = choose|i: int| 0 <= i < kb.len() && kb[i] == x;
            assert(pb[i].periodo_key == c);
            assert(tiene_clave(rv, c) || tiene_clave(rg, c));
            let j = choose|j: int| 0 <= j < pa.len() && pa[j].periodo_key == c;
            assert(ka[j] == x);
        }
    }
    lemma_ordenadas_iguales(ka, kb);
    assert forall|i: int| 0 <= i < pa.len() implies pa[i] == pb[i] by {
        assert(ka[i] == kb[i]);
        assert(periodo_correcto(pa[i], rv, rg));
        assert(periodo_correcto(pb[i], rv, rg));
    }
    assert(pa =~= pb);
}

} // verus!
