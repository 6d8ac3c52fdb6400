//! Requests and rows of the administrative sale listing and re-edit.

use vstd::prelude::*;
use crate::venta::VentaEditarItemInput;

verus! {

#[derive(Debug)]
pub struct VentasAdminListarInput {
    pub desde: String,
    pub hasta: String,
    pub id_usuario: Option<i64>,
    pub estado: Option<String>,
    pub medio: Option<String>,
    pub limit: Option<i64>,
    pub offset: Option<i64>,
}

#[derive(Debug)]
pub struct UsuarioOperadorRow {
    pub id_usuario: i64,
    pub nombre: String,
}

#[derive(Debug)]
pub struct VentaAdminItemRow {
    pub id_item: i64,
    pub id_producto: i64,
    pub codigo: String,
    pub producto: String,
    pub cantidad: i64,
    pub precio_unitario: i64,
    pub costo_unitario_en_venta: i64,
    pub subtotal: i64,
    pub fuente_precio: String,
    pub costo_linea: i64,
    pub ganancia_linea: i64,
}

#[derive(Debug)]
pub struct VentaAdminPagoRow {
    pub medio: String,
    pub monto: i64,
    pub referencia: Option<String>,
}

#[derive(Debug)]
pub struct Paginado<T> {
    pub items: Vec<T>,
    pub total: i64,
    pub limit: i64,
    pub offset: i64,
}

#[derive(Debug)]
pub struct ProductoBasico {
    pub id_producto: i64,
    pub codigo_producto: String,
    pub nombre: String,
    pub precio_venta_actual: i64,
    pub costo_actual: i64,
}

#[derive(Debug)]
pub struct VentaEditarPagoInput {
    pub medio: String,
    pub monto: i64,
    pub referencia: Option<String>,
}

#[derive(Debug)]
pub struct VentaEditarGuardarInput {
    pub id_venta: i64,
    pub items: Vec<VentaEditarItemInput>,
    pub pagos: Vec<VentaEditarPagoInput>,
}

} // verus!
