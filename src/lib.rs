//! Exact-integer financial core of a retail point-of-sale system: proportional
//! allocation of bundle prices, the sale ledger state machine and the periodic
//! profit-and-loss rollup.

pub mod error;
pub mod texto;
pub mod stock;
pub mod reparto;
pub mod venta;
pub mod promo;
pub mod fecha;
pub mod agregado;
pub mod pnl;
pub mod desglose;
pub mod pnl_modelo;
pub mod caja;
pub mod gastos;
pub mod promo_modelo;
pub mod reportes;
pub mod ventas_modelo;
pub mod ventas_admin;
