//! Register sessions: the state of a register and the shapes its commands exchange.

use vstd::prelude::*;

verus! {

/// Whether a register session is open or closed.
#[derive(Debug, Clone, Copy, PartialEq, Eq, Structural)]
pub enum EstadoCaja {
    Abierta,
    Cerrada,
}

impl EstadoCaja {
    /// The stored name of the state.
    pub fn as_str(self) -> (r: &'static str)
        ensures
            self == EstadoCaja::Abierta ==> r@ == "abierta"@,
            self == EstadoCaja::Cerrada ==> r@ == "cerrada"@,
    {
        match self {
            EstadoCaja::Abierta => "abierta",
            EstadoCaja::Cerrada => "cerrada",
        }
    }
}

#[derive(Debug)]
pub struct CajaAbrirOut {
    pub id_caja: i64,
}

#[derive(Debug)]
pub struct CajaCerrarOut {
    pub id_caja: i64,
}

#[derive(Debug)]
pub struct MedioPagoResumen {
    pub medio: String,
    pub total_medio: i64,
}

#[derive(Debug)]
pub struct CajaResumenDiario {
    pub id_cajas: Vec<i64>,
    pub cantidad_cajas: i32,
    pub cantidad_ventas: i32,
    pub total_general: i64,
    pub por_medio: Vec<MedioPagoResumen>,
}

#[derive(Debug)]
pub struct CierreDiarioInput {
    pub id_cajas: Vec<i64>,
}

#[derive(Debug)]
pub struct Caja {
    pub id_caja: i64,
    pub abierta_por: i64,
    pub abierta_en: String,
    pub estado: EstadoCaja,
    pub cerrada_por: Option<i64>,
    pub cerrada_en: Option<String>,
}

} // verus!
