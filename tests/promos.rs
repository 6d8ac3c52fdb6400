use pos_core::error::LedgerError;
use pos_core::promo::PromoComboItemRow;
use pos_core::promo_modelo::{combo_valido, total_sugerido, validar_promo_combo, PromoComboCrearInput, PromoComboItemInput};

fn entrada(nombre: &str, minimo: i64, cantidades: &[i64]) -> PromoComboCrearInput {
    PromoComboCrearInput {
        nombre: nombre.to_string(),
        precio_pack: 0,
        precio_min_total: minimo,
        items: cantidades
            .iter()
            .enumerate()
            .map(|(i, c)| PromoComboItemInput { id_producto: i as i64 + 1, cantidad: *c })
            .collect(),
    }
}

#[test]
fn combo_nombre_recortado() {
    assert_eq!(validar_promo_combo(&entrada("  Pack desayuno \n", 100, &[1, 2])), Ok("Pack desayuno".to_string()));
}

#[test]
fn combo_rechazos() {
    assert_eq!(validar_promo_combo(&entrada("   ", 100, &[1])), Err(LedgerError::InvalidInput));
    assert_eq!(validar_promo_combo(&entrada("Pack", -1, &[1])), Err(LedgerError::InvalidInput));
    assert_eq!(validar_promo_combo(&entrada("Pack", 0, &[])), Err(LedgerError::InvalidInput));
    assert_eq!(validar_promo_combo(&entrada("Pack", 0, &[2, 0])), Err(LedgerError::InvalidInput));
    assert_eq!(combo_valido("Pack", 0, &vec![PromoComboItemInput { id_producto: 1, cantidad: 3 }]), Ok(()));
    assert_eq!(combo_valido("", 0, &vec![PromoComboItemInput { id_producto: 1, cantidad: 3 }]), Err(LedgerError::InvalidInput));
}

fn fila(precio: i64, cantidad: i64) -> PromoComboItemRow {
    PromoComboItemRow {
        id_producto: 1,
        nombre: "x".to_string(),
        cantidad,
        precio_unitario: precio,
        subtotal_sugerido: precio * cantidad,
    }
}

#[test]
fn combo_total_sugerido() {
    assert_eq!(total_sugerido(&vec![fila(150, 2), fila(40, 3)]), Some(420));
    assert_eq!(total_sugerido(&vec![]), Some(0));
    assert_eq!(total_sugerido(&vec![fila(i64::MAX, 1), fila(1, 1)]), None);
}
