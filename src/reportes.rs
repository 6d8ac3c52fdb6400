//! Rows of the administrative and profitability reports.

use vstd::prelude::*;

verus! {

#[derive(Debug)]
pub struct VentaAdminRow {
    pub id_venta: i64,
    pub fecha_hora: String,
    pub usuario: String,
    pub id_usuario: i64,
    pub id_caja: i64,
    pub total: i64,
    pub estado: String,
}

#[derive(Debug)]
pub struct CajaAdminRow {
    pub id_caja: i64,
    pub abierta_por: i64,
    pub nombre_usuario: String,
    pub abierta_en: String,
    pub cerrada_en: Option<String>,
    pub estado: String,
    pub cantidad_ventas: i64,
    pub total_caja: i64,
}

#[derive(Debug)]
pub struct RentabilidadProductoRow {
    pub id_producto: i64,
    pub nombre: String,
    pub cantidad_vendida: i64,
    pub ingreso_total: i64,
    pub costo_total: i64,
    pub ganancia: i64,
}

#[derive(Debug)]
pub struct PeriodoMes {
    pub mes: String,
    pub fecha_desde: String,
    pub fecha_hasta: String,
}

#[derive(Debug)]
pub struct TopProductoRow {
    pub id_producto: i64,
    pub nombre: String,
    pub cantidad_vendida: i64,
    pub ingreso_total: i64,
    pub ganancia_bruta: i64,
}

#[derive(Debug)]
pub struct GananciasMesRow {
    pub mes: String,
    pub ventas: i64,
    pub cogs: i64,
    pub gastos: i64,
    pub ganancia_neta: i64,
}

} // verus!
