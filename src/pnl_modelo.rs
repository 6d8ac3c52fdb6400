//! Row and display shapes of the profit-and-loss report.

use vstd::prelude::*;

verus! {

#[derive(Debug)]
pub struct PnlMeta {
    pub desde: String,
    pub hasta: String,
    pub group_by: String,
    pub moneda: String,
    pub generado_en: String,
    pub criterio_costos: String,
    pub criterio_gastos_fijos: String,
}

#[derive(Debug)]
pub struct PnlPeriodoVentasRow {
    pub periodo_key: String,
    pub desde: String,
    pub hasta: String,
    pub ventas_brutas: i64,
    pub costo_mercaderia_vendida: i64,
}

#[derive(Debug)]
pub struct PnlPeriodoGastosRow {
    pub periodo_key: String,
    pub ingresos_extra: i64,
    pub egresos_operativos: i64,
}

#[derive(Debug)]
pub struct PnlGastoCategoria {
    pub categoria: String,
    pub ingresos: i64,
    pub egresos: i64,
    pub neto: i64,
}

#[derive(Debug)]
pub struct PnlMedioPago {
    pub medio: String,
    pub monto: i64,
}

} // verus!
