//! Shapes used to create, list and inspect promotion bundles.

use vstd::prelude::*;
use crate::promo::{PromoComboRow, PromoComboItemRow};
use crate::error::LedgerError;
use crate::venta::cabe;
use crate::texto::{recortar, recorte};
use vstd::string::StringExecFns;

verus! {

#[derive(Debug)]
pub struct PromoComboItemInput {
    pub id_producto: i64,
    pub cantidad: i64,
}

#[derive(Debug)]
pub struct PromoComboCrearInput {
    pub nombre: String,
    pub precio_pack: i64,
    pub precio_min_total: i64,
    pub items: Vec<PromoComboItemInput>,
}

#[derive(Debug)]
pub struct PromoComboDetalle {
    pub combo: PromoComboRow,
    pub items: Vec<PromoComboItemRow>,
    pub total_sugerido: i64,
}

#[derive(Debug)]
pub struct PromoComboListadoRow {
    pub id_combo: i64,
    pub nombre: String,
    pub precio_pack: i64,
    pub precio_min_total: i64,
    pub activo: i64,
    pub resumen: String,
}

/// Every bundle entry needs a positive quantity.
pub open spec fn cantidades_positivas(items: Seq<PromoComboItemInput>) -> bool {
    forall|i: int| 0 <= i < items.len() ==> #[trigger] items[i].cantidad > 0
}

/// A bundle may be created with this trimmed name: the name is not blank,
/// the minimum total is not negative, and there is at least one entry, each
/// with a positive quantity.
pub fn combo_valido(
    nombre_recortado: &str,
    precio_min_total: i64,
    items: &Vec<PromoComboItemInput>,
) -> (r: Result<(), LedgerError>)
    ensures
        r is Ok <==> (nombre_recortado@.len() > 0 && precio_min_total >= 0 && items.len() > 0
            && cantidades_positivas(items@)),
        r is Err ==> r == Err::<(), LedgerError>(LedgerError::InvalidInput),
{
    if nombre_recortado.unicode_len() == 0 || precio_min_total < 0 || items.len() == 0 {
        return Err(LedgerError::InvalidInput);
    }
    let mut i: usize = 0;
    while i < items.len()
        invariant
            i <= items.len(),
            forall|t: int| 0 <= t < i ==> #[trigger] items@[t].cantidad > 0,
        decreases items.len() - i,
    {
        if items[i].cantidad <= 0 {
            assert(!cantidades_positivas(items@)) by {
                assert(!(items@[i as int].cantidad > 0));
            }
            return Err(LedgerError::InvalidInput);
        }
        i = i + 1;
    }
    Ok(())
}

/// Checks a bundle creation request; on success returns the name to store,
/// trimmed.
pub fn validar_promo_combo(input: &PromoComboCrearInput) -> (r: Result<String, LedgerError>)
    ensures
        r is Ok <==> (recorte(input.nombre@).len() > 0 && input.precio_min_total >= 0
            && input.items.len() > 0 && cantidades_positivas(input.items@)),
        r matches Ok(n) ==> n@ == recorte(input.nombre@),
        r matches Err(e) ==> e == LedgerError::InvalidInput,
{
    let nombre = recortar(input.nombre.as_str());
    match combo_valido(nombre, input.precio_min_total, &input.items) {
        Ok(()) => Ok(<String as StringExecFns>::from_str(nombre)),
        Err(e) => Err(e),
    }
}

/// Sum of the suggested subtotals of the entries.
pub open spec fn suma_sugerida(items: Seq<PromoComboItemRow>) -> int
    decreases items.len(),
{
    if items.len() == 0 {
        0
    } else {
        suma_sugerida(items.drop_last()) + items.last().subtotal_sugerido
    }
}

/// The suggested total of a bundle: the sum of the catalog subtotals of its
/// entries, when it fits in the amount range.
pub fn total_sugerido(items: &Vec<PromoComboItemRow>) -> (r: Option<i64>)
    requires
        items.len() <= 0x1_0000_0000,
    ensures
        r is Some <==> cabe(suma_sugerida(items@)),
        r matches Some(t) ==> t == suma_sugerida(items@),
{
    let mut acc: i128 = 0;
    let mut i: usize = 0;
    while i < items.len()
        invariant
            items.len() <= 0x1_0000_0000,
            i <= items.len(),
            acc == suma_sugerida(items@.take(i as int)),
            -i * 0x8000_0000_0000_0000 <= acc <= i * 0x8000_0000_0000_0000,
        decreases items.len() - i,
    {
        proof {
            assert(items@.take(i + 1).drop_last() =~= items@.take(i as int));
        }
        acc = acc + items[i].subtotal_sugerido as i128;
        i = i + 1;
    }
    assert(items@.take(items.len() as int) =~= items@);
    if acc < i64::MIN as i128 || acc > i64::MAX as i128 {
        None
    } else {
        Some(acc as i64)
    }
}

} // verus!
