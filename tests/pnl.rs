use pos_core::error::{EstadoVenta, LedgerError};
use pos_core::fecha::{last_n_months, month_bounds_from_ym, prev_ym, ym_shift, Agrupacion, Fecha};
use pos_core::pnl::{
    criterio_gastos_fijos, pnl_meta, pnl_reporte, redondear, validar_group_by, GastoRegistro,
    PnlReporteInput, TipoGasto, VentaRegistro,
};
use pos_core::stock::{factor_por_unidad, ReposicionModo, TipoPrecio, UnidadCompra};
use pos_core::caja::EstadoCaja;

fn f(anio: i64, mes: i64, dia: i64) -> Fecha {
    Fecha { anio, mes, dia }
}

fn venta(id: i64, usuario: i64, fecha: Fecha, estado: EstadoVenta, total: i64, costo: i64) -> VentaRegistro {
    VentaRegistro { id_venta: id, id_usuario: usuario, fecha, estado, total, costo_mercaderia: costo }
}

fn gasto(fecha: Fecha, tipo: TipoGasto, monto: i64) -> GastoRegistro {
    GastoRegistro { fecha, categoria: "alquiler".to_string(), tipo, monto }
}

fn pedido(desde: Fecha, hasta: Fecha, g: Agrupacion) -> PnlReporteInput {
    PnlReporteInput { desde, hasta, group_by: g, id_usuario: None, incluir_no_finalizadas: false }
}

fn datos() -> (Vec<VentaRegistro>, Vec<GastoRegistro>) {
    let ventas = vec![
        venta(1, 7, f(2024, 1, 10), EstadoVenta::Finalizada, 1000, 600),
        venta(2, 8, f(2024, 1, 20), EstadoVenta::Finalizada, 500, 200),
        venta(3, 7, f(2024, 2, 5), EstadoVenta::Finalizada, 300, 100),
        venta(4, 7, f(2024, 2, 6), EstadoVenta::EnCurso, 999, 1),
        venta(5, 7, f(2024, 4, 1), EstadoVenta::Finalizada, 50, 10),
    ];
    let gastos = vec![
        gasto(f(2024, 1, 31), TipoGasto::Egreso, 3100),
        gasto(f(2024, 3, 3), TipoGasto::Ingreso, 40),
        gasto(f(2023, 12, 31), TipoGasto::Egreso, 7),
    ];
    (ventas, gastos)
}

#[test]
fn reporte_mensual() {
    let (ventas, gastos) = datos();
    let rep = pnl_reporte(&pedido(f(2024, 1, 1), f(2024, 3, 31), Agrupacion::Mes), &ventas, &gastos).unwrap();
    let claves: Vec<i64> = rep.periodos.iter().map(|p| p.periodo_key).collect();
    assert_eq!(claves, vec![202401, 202402, 202403]);
    let ene = rep.periodos[0];
    assert_eq!(ene.ventas_brutas, 1500);
    assert_eq!(ene.costo_mercaderia_vendida, 800);
    assert_eq!(ene.margen_bruto, 700);
    assert_eq!(ene.egresos_operativos, 3100);
    assert_eq!(ene.resultado_neto, 700 - 3100);
    let mar = rep.periodos[2];
    assert_eq!(mar.ventas_brutas, 0);
    assert_eq!(mar.ingresos_extra, 40);
    assert_eq!(rep.totales.ventas_brutas, 1800);
    assert_eq!(rep.totales.costo_mercaderia_vendida, 900);
    assert_eq!(rep.totales.ingresos_extra, 40);
    assert_eq!(rep.totales.egresos_operativos, 3100);
    assert_eq!(rep.totales.resultado_neto, 1800 - 900 + 40 - 3100);
}

#[test]
fn conciliacion_periodos_con_total() {
    let (ventas, gastos) = datos();
    let mes = pnl_reporte(&pedido(f(2024, 1, 1), f(2024, 12, 31), Agrupacion::Mes), &ventas, &gastos).unwrap();
    let total = pnl_reporte(&pedido(f(2024, 1, 1), f(2024, 12, 31), Agrupacion::Total), &ventas, &gastos).unwrap();
    assert_eq!(total.periodos.len(), 1);
    assert_eq!(total.periodos[0].periodo_key, 0);
    let suma = |sel: fn(&pos_core::pnl::PnlPeriodo) -> i64| mes.periodos.iter().map(sel).sum::<i64>();
    assert_eq!(suma(|p| p.ventas_brutas), total.periodos[0].ventas_brutas);
    assert_eq!(suma(|p| p.costo_mercaderia_vendida), total.periodos[0].costo_mercaderia_vendida);
    assert_eq!(suma(|p| p.ingresos_extra), total.periodos[0].ingresos_extra);
    assert_eq!(suma(|p| p.egresos_operativos), total.periodos[0].egresos_operativos);
    assert_eq!(mes.totales, total.totales);
}

#[test]
fn reporte_repetido_identico() {
    let (ventas, gastos) = datos();
    let q = pedido(f(2024, 1, 1), f(2024, 2, 29), Agrupacion::Semana);
    let a = pnl_reporte(&q, &ventas, &gastos).unwrap();
    let b = pnl_reporte(&q, &ventas, &gastos).unwrap();
    assert_eq!(a.periodos, b.periodos);
    assert_eq!(a.totales, b.totales);
}

#[test]
fn prorrateo_diario() {
    let (ventas, gastos) = datos();
    let rep = pnl_reporte(&pedido(f(2024, 1, 30), f(2024, 2, 1), Agrupacion::Dia), &ventas, &gastos).unwrap();
    let claves: Vec<i64> = rep.periodos.iter().map(|p| p.periodo_key).collect();
    assert_eq!(claves, vec![20240130, 20240131, 20240201]);
    assert_eq!(rep.periodos[0].egresos_operativos, 100);
    assert_eq!(rep.periodos[1].egresos_operativos, 100);
    assert_eq!(rep.periodos[2].egresos_operativos, 0);
    assert_eq!(rep.periodos[0].resultado_neto, -100);
}

#[test]
fn prorrateo_redondea_cada_dia() {
    let gastos = vec![gasto(f(2024, 2, 10), TipoGasto::Ingreso, 100)];
    let rep = pnl_reporte(&pedido(f(2024, 2, 1), f(2024, 2, 29), Agrupacion::Dia), &vec![], &gastos).unwrap();
    assert_eq!(rep.periodos.len(), 29);
    assert!(rep.periodos.iter().all(|p| p.ingresos_extra == 3));
    assert_eq!(rep.totales.ingresos_extra, 87);
}

#[test]
fn prorrateo_semanal_iso() {
    let gastos = vec![gasto(f(2024, 1, 15), TipoGasto::Egreso, 3100)];
    let rep = pnl_reporte(&pedido(f(2024, 1, 1), f(2024, 1, 14), Agrupacion::Semana), &vec![], &gastos).unwrap();
    let claves: Vec<i64> = rep.periodos.iter().map(|p| p.periodo_key).collect();
    assert_eq!(claves, vec![202401, 202402]);
    assert_eq!(rep.periodos[0].egresos_operativos, 700);
    assert_eq!(rep.periodos[1].egresos_operativos, 700);
    let por_mes = pnl_reporte(&pedido(f(2024, 1, 1), f(2024, 1, 14), Agrupacion::Mes), &vec![], &gastos).unwrap();
    assert!(por_mes.periodos.is_empty());
}

#[test]
fn filtros_de_ventas() {
    let (ventas, gastos) = datos();
    let mut q = pedido(f(2024, 2, 1), f(2024, 2, 29), Agrupacion::Total);
    let rep = pnl_reporte(&q, &ventas, &gastos).unwrap();
    assert_eq!(rep.totales.ventas_brutas, 300);
    q.incluir_no_finalizadas = true;
    let rep = pnl_reporte(&q, &ventas, &gastos).unwrap();
    assert_eq!(rep.totales.ventas_brutas, 1299);
    q.id_usuario = Some(8);
    let rep = pnl_reporte(&q, &ventas, &gastos).unwrap();
    assert_eq!(rep.totales.ventas_brutas, 0);
    assert!(rep.periodos.is_empty());
}

#[test]
fn reporte_entrada_invalida() {
    let (ventas, gastos) = datos();
    let q = pedido(f(2024, 2, 30), f(2024, 3, 1), Agrupacion::Mes);
    assert!(matches!(pnl_reporte(&q, &ventas, &gastos), Err(LedgerError::InvalidInput)));
    let malas = vec![venta(1, 7, f(2024, 13, 1), EstadoVenta::Finalizada, 1, 1)];
    let q = pedido(f(2024, 1, 1), f(2024, 3, 1), Agrupacion::Mes);
    assert!(matches!(pnl_reporte(&q, &malas, &vec![]), Err(LedgerError::InvalidInput)));
}

#[test]
fn reporte_desborde() {
    let ventas = vec![
        venta(1, 7, f(2024, 1, 10), EstadoVenta::Finalizada, i64::MAX, 0),
        venta(2, 7, f(2024, 1, 11), EstadoVenta::Finalizada, 1, 0),
    ];
    let q = pedido(f(2024, 1, 1), f(2024, 1, 31), Agrupacion::Dia);
    assert!(matches!(pnl_reporte(&q, &ventas, &vec![]), Err(LedgerError::InvalidInput)));
    let q = pedido(f(2024, 1, 1), f(2024, 1, 10), Agrupacion::Dia);
    assert_eq!(pnl_reporte(&q, &ventas, &vec![]).unwrap().totales.ventas_brutas, i64::MAX);
    let q = pedido(f(2024, 1, 1), f(2024, 1, 31), Agrupacion::Mes);
    assert!(matches!(pnl_reporte(&q, &ventas, &vec![]), Err(LedgerError::InvalidInput)));
}

#[test]
fn redondeo_medio_lejos_de_cero() {
    assert_eq!(redondear(5, 2), 3);
    assert_eq!(redondear(-5, 2), -3);
    assert_eq!(redondear(100, 31), 3);
    assert_eq!(redondear(3100, 31), 100);
    assert_eq!(redondear(0, 28), 0);
}

#[test]
fn semana_iso_en_bordes_de_anio() {
    assert_eq!(f(2021, 1, 3).semana_iso(), (2020, 53));
    assert_eq!(f(2024, 12, 30).semana_iso(), (2025, 1));
    assert_eq!(f(2024, 6, 15).semana_iso(), (2024, 24));
    assert_eq!(f(2024, 1, 1).dia_semana(), 1);
    assert_eq!(f(2024, 2, 29).dia_del_anio(), 60);
    assert_eq!(f(2024, 2, 28).siguiente(), f(2024, 2, 29));
    assert_eq!(f(2023, 12, 31).siguiente(), f(2024, 1, 1));
    assert!(!f(2023, 2, 29).es_valida());
}

#[test]
fn meses_relativos() {
    assert_eq!(prev_ym(2024, 1), Some((2023, 12)));
    assert_eq!(prev_ym(2024, 5), Some((2024, 4)));
    assert_eq!(prev_ym(2024, 13), None);
    assert_eq!(ym_shift(2024, 11, 3), Some((2025, 2)));
    assert_eq!(ym_shift(2024, 1, -13), Some((2022, 12)));
    assert_eq!(last_n_months(2024, 2, 3), Some(vec![(2023, 12), (2024, 1), (2024, 2)]));
    assert_eq!(month_bounds_from_ym(2024, 2), Some((f(2024, 2, 1), f(2024, 2, 29))));
    assert_eq!(month_bounds_from_ym(2023, 2), Some((f(2023, 2, 1), f(2023, 2, 28))));
}

#[test]
fn textos_y_codigos() {
    assert_eq!(validar_group_by("dia"), Ok(Agrupacion::Dia));
    assert_eq!(validar_group_by("semana"), Ok(Agrupacion::Semana));
    assert_eq!(validar_group_by("mes"), Ok(Agrupacion::Mes));
    assert_eq!(validar_group_by("total"), Ok(Agrupacion::Total));
    assert_eq!(validar_group_by("anio"), Err(LedgerError::InvalidInput));
    assert_eq!(criterio_gastos_fijos(Agrupacion::Semana), "even_daily_proration");
    assert_eq!(criterio_gastos_fijos(Agrupacion::Mes), "no_proration");
    let meta = pnl_meta("2024-01-01".to_string(), "2024-01-31".to_string(), "dia".to_string(), Agrupacion::Dia, "ahora".to_string());
    assert_eq!(meta.moneda, "ARS");
    assert_eq!(meta.criterio_gastos_fijos, "even_daily_proration");
    assert_eq!(meta.criterio_costos, "snapshot_en_venta");
    assert_eq!(factor_por_unidad("MAPLE"), Ok(1));
    assert_eq!(factor_por_unidad("CAJON"), Ok(12));
    assert_eq!(factor_por_unidad("caja"), Err(LedgerError::InvalidInput));
    assert_eq!(TipoPrecio::Costo.as_str(), "costo");
    assert_eq!(ReposicionModo::Cajon.as_str(), "cajon");
    assert_eq!(UnidadCompra::MAPLE.as_str(), "MAPLE");
    assert_eq!(EstadoCaja::Abierta.as_str(), "abierta");
}
