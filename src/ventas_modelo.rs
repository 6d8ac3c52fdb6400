//! Requests and rows of the point-of-sale commands.

use vstd::prelude::*;
use crate::venta::PagoInput;

verus! {

#[derive(Debug)]
pub struct ProductoDisponible {
    pub id_producto: i64,
    pub nombre: String,
    pub precio_unitario: i64,
    pub stock_disponible: i64,
}

#[derive(Debug)]
pub struct VentaItemDto {
    pub id_item: i64,
    pub id_producto: i64,
    pub nombre: String,
    pub cantidad: i64,
    pub precio_unitario: i64,
    pub subtotal: i64,
}

#[derive(Debug)]
pub struct AgregarItemInput {
    pub id_venta: i64,
    pub id_producto: i64,
    pub cantidad: i64,
}

#[derive(Debug)]
pub struct SetCantidadInput {
    pub id_item: i64,
    pub cantidad: i64,
}

#[derive(Debug)]
pub struct QuitarItemInput {
    pub id_item: i64,
}

#[derive(Debug)]
pub struct VentaListarInput {
    pub id_venta: i64,
}

#[derive(Debug)]
pub struct VentaCancelarInput {
    pub id_venta: i64,
}

#[derive(Debug)]
pub struct VentaFinalizarInput {
    pub id_venta: i64,
    pub pagos: Vec<PagoInput>,
}

#[derive(Debug)]
pub struct HistorialItem {
    pub id_venta: i64,
    pub hora: String,
    pub codigo_producto: String,
    pub producto: String,
    pub cantidad: i64,
    pub precio_unitario: i64,
    pub subtotal: i64,
    pub total_venta: i64,
    pub pagos_detalle: Option<String>,
}

#[derive(Debug)]
pub struct VentaLineaInput {
    pub id_producto: i64,
    pub cantidad: i64,
}

#[derive(Debug)]
pub struct PromoComboAplicarInput {
    pub id_venta: i64,
    pub id_combo: i64,
    pub precio_total_pack: i64,
}

} // verus!
