//! Expense ledger entries, payroll payments and their queries.

use vstd::prelude::*;

verus! {

#[derive(Debug)]
pub struct SueldoRegistrarInput {
    pub descripcion: String,
    pub monto: i64,
    pub id_usuario_destino: Option<i64>,
    pub fecha_hora: Option<String>,
}

#[derive(Debug)]
pub struct GastoRegistrarInput {
    pub categoria: String,
    pub descripcion: Option<String>,
    pub monto: i64,
    pub fecha_hora: Option<String>,
}

#[derive(Debug)]
pub struct PeriodoInput {
    pub fecha_desde: String,
    pub fecha_hasta: String,
}

#[derive(Debug)]
pub struct GastoListarPeriodoInput {
    pub fecha_desde: String,
    pub fecha_hasta: String,
    pub categoria: Option<String>,
}

#[derive(Debug)]
pub struct SueldoListarPeriodoInput {
    pub fecha_desde: String,
    pub fecha_hasta: String,
    pub id_usuario_destino: Option<i64>,
}

#[derive(Debug)]
pub struct TotalesPeriodoInput {
    pub fecha_desde: String,
    pub fecha_hasta: String,
    pub categoria: Option<String>,
    pub id_usuario_destino: Option<i64>,
}

#[derive(Debug)]
pub struct SueldoPagoRow {
    pub id_sueldo_pago: i64,
    pub fecha_hora: String,
    pub descripcion: String,
    pub monto: i64,
    pub id_usuario_destino: Option<i64>,
    pub id_usuario: i64,
}

#[derive(Debug)]
pub struct GastoNegocioRow {
    pub id_gasto_negocio: i64,
    pub fecha_hora: String,
    pub categoria: String,
    pub descripcion: Option<String>,
    pub monto: i64,
    pub id_usuario: i64,
}

#[derive(Debug)]
pub struct TotalOut {
    pub total: i64,
}

#[derive(Debug)]
pub struct SueldoPagoRowView {
    pub id_sueldo_pago: i64,
    pub fecha_hora: String,
    pub descripcion: String,
    pub monto: i64,
    pub id_usuario_destino: i64,
    pub usuario_destino_nombre: String,
}

} // verus!
