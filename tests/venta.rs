use pos_core::fecha::Fecha;
use pos_core::pnl::venta_registro;
use pos_core::error::{EstadoVenta, LedgerError};
use pos_core::promo::{
    aplicar_promo_combo, venta_aplicar_promo_combo, venta_aplicar_promo_combo_db, PromoComboItemRow,
    PromoComboRow,
};
use pos_core::venta::{
    venta_admin_editar_guardar, venta_agregar_item, venta_cancelar, venta_finalizar, venta_iniciar,
    venta_quitar_item, venta_set_cantidad, FuentePrecio, MedioPago, PagoInput, SesionContexto, Venta,
    VentaEditarItemInput,
};

fn ctx() -> SesionContexto {
    SesionContexto { id_usuario: Some(7), id_caja_abierta: Some(3) }
}

fn nueva() -> Venta {
    venta_iniciar(&ctx(), 1, "2024-05-01 10:00:00".to_string()).unwrap()
}

fn pago(medio: MedioPago, monto: i64) -> PagoInput {
    PagoInput { medio, monto, referencia: None }
}

fn combo(activo: i64, minimo: i64, pack: i64) -> PromoComboRow {
    PromoComboRow {
        id_combo: 9,
        nombre: "pack".to_string(),
        precio_pack: pack,
        precio_min_total: minimo,
        activo,
        creado_en: "2024-01-01".to_string(),
    }
}

fn item(id_producto: i64, cantidad: i64, precio: i64) -> PromoComboItemRow {
    PromoComboItemRow {
        id_producto,
        nombre: format!("p{}", id_producto),
        cantidad,
        precio_unitario: precio,
        subtotal_sugerido: cantidad * precio,
    }
}

#[test]
fn iniciar_crea_borrador_vacio() {
    let v = nueva();
    assert_eq!(v.estado, EstadoVenta::EnCurso);
    assert_eq!(v.total, 0);
    assert_eq!(v.id_usuario, 7);
    assert_eq!(v.id_caja, 3);
    assert!(v.items.is_empty());
}

#[test]
fn iniciar_sin_sesion_o_sin_caja() {
    let sin_sesion = SesionContexto { id_usuario: None, id_caja_abierta: Some(3) };
    assert_eq!(venta_iniciar(&sin_sesion, 1, String::new()).unwrap_err(), LedgerError::NoSession);
    let sin_caja = SesionContexto { id_usuario: Some(7), id_caja_abierta: None };
    assert_eq!(venta_iniciar(&sin_caja, 1, String::new()).unwrap_err(), LedgerError::RegisterClosed);
}

#[test]
fn agregar_fusiona_linea_de_catalogo() {
    let mut v = nueva();
    venta_agregar_item(&mut v, 10, 2, 150, 90).unwrap();
    venta_agregar_item(&mut v, 10, 3, 999, 999).unwrap();
    assert_eq!(v.items.len(), 1);
    assert_eq!(v.items[0].cantidad, 5);
    assert_eq!(v.items[0].precio_unitario, 150);
    assert_eq!(v.items[0].precio_lista, 150);
    assert_eq!(v.items[0].costo_unitario_en_venta, 90);
    assert_eq!(v.items[0].subtotal, 750);
    assert_eq!(v.total, 750);
    venta_agregar_item(&mut v, 11, 1, 40, 10).unwrap();
    assert_eq!(v.items.len(), 2);
    assert_eq!(v.total, 790);
}

#[test]
fn agregar_cantidad_invalida() {
    let mut v = nueva();
    assert_eq!(venta_agregar_item(&mut v, 10, 0, 150, 90), Err(LedgerError::InvalidInput));
    assert!(v.items.is_empty());
}

#[test]
fn agregar_desborde_rechazado() {
    let mut v = nueva();
    venta_agregar_item(&mut v, 10, 1, i64::MAX, 0).unwrap();
    assert_eq!(venta_agregar_item(&mut v, 11, 1, 1, 0), Err(LedgerError::InvalidInput));
    assert_eq!(v.total, i64::MAX);
    assert_eq!(v.items.len(), 1);
}

#[test]
fn set_cantidad_y_quitar() {
    let mut v = nueva();
    venta_agregar_item(&mut v, 10, 2, 150, 90).unwrap();
    venta_agregar_item(&mut v, 11, 1, 40, 10).unwrap();
    let id = v.items[0].id_item;
    venta_set_cantidad(&mut v, id, 4).unwrap();
    assert_eq!(v.items[0].subtotal, 600);
    assert_eq!(v.total, 640);
    venta_quitar_item(&mut v, id).unwrap();
    assert_eq!(v.items.len(), 1);
    assert_eq!(v.total, 40);
    assert_eq!(venta_quitar_item(&mut v, 999), Err(LedgerError::NotFound { id: 999 }));
    assert_eq!(venta_set_cantidad(&mut v, 999, 1), Err(LedgerError::NotFound { id: 999 }));
}

#[test]
fn cancelar_anula_y_vacia() {
    let mut v = nueva();
    venta_agregar_item(&mut v, 10, 2, 150, 90).unwrap();
    venta_cancelar(&mut v).unwrap();
    assert_eq!(v.estado, EstadoVenta::Anulada);
    assert_eq!(v.total, 0);
    assert!(v.items.is_empty());
    assert_eq!(
        venta_agregar_item(&mut v, 10, 1, 1, 1),
        Err(LedgerError::InvalidStateTransition { estado: EstadoVenta::Anulada })
    );
    assert_eq!(
        venta_cancelar(&mut v),
        Err(LedgerError::InvalidStateTransition { estado: EstadoVenta::Anulada })
    );
}

#[test]
fn finalizar_con_pagos_exactos() {
    let mut v = nueva();
    venta_agregar_item(&mut v, 10, 1, 500, 200).unwrap();
    assert_eq!(v.total, 500);
    let movs = venta_finalizar(
        &mut v,
        &ctx(),
        vec![pago(MedioPago::Efectivo, 300), pago(MedioPago::Debito, 200)],
    )
    .unwrap();
    assert_eq!(v.estado, EstadoVenta::Finalizada);
    assert_eq!(v.pagos.len(), 2);
    assert_eq!(movs.len(), 1);
    assert_eq!(movs[0].id_producto, 10);
    assert_eq!(movs[0].cantidad_delta, -1);
    assert_eq!(movs[0].costo_unitario, 200);
    assert_eq!(movs[0].total_costo, 200);
}

#[test]
fn finalizar_pagos_no_cuadran() {
    let mut v = nueva();
    venta_agregar_item(&mut v, 10, 1, 500, 200).unwrap();
    let r = venta_finalizar(
        &mut v,
        &ctx(),
        vec![pago(MedioPago::Efectivo, 300), pago(MedioPago::Debito, 199)],
    );
    assert_eq!(r.unwrap_err(), LedgerError::PaymentMismatch { pagado: 499, total: 500 });
    assert_eq!(v.estado, EstadoVenta::EnCurso);
    assert!(v.pagos.is_empty());
    assert_eq!(v.total, 500);
    assert_eq!(v.items.len(), 1);
}

#[test]
fn finalizar_rechazos() {
    let mut v = nueva();
    assert_eq!(
        venta_finalizar(&mut v, &ctx(), vec![pago(MedioPago::Efectivo, 1)]).unwrap_err(),
        LedgerError::InvalidInput
    );
    venta_agregar_item(&mut v, 10, 1, 500, 200).unwrap();
    let cerrada = SesionContexto { id_usuario: Some(7), id_caja_abierta: None };
    assert_eq!(
        venta_finalizar(&mut v, &cerrada, vec![pago(MedioPago::Efectivo, 500)]).unwrap_err(),
        LedgerError::RegisterClosed
    );
    assert_eq!(
        venta_finalizar(&mut v, &ctx(), vec![pago(MedioPago::Efectivo, 600), pago(MedioPago::Credito, -100)])
            .unwrap_err(),
        LedgerError::InvalidInput
    );
    venta_finalizar(&mut v, &ctx(), vec![pago(MedioPago::Transferencia, 500)]).unwrap();
    assert_eq!(
        venta_finalizar(&mut v, &ctx(), vec![pago(MedioPago::Efectivo, 500)]).unwrap_err(),
        LedgerError::InvalidStateTransition { estado: EstadoVenta::Finalizada }
    );
}

#[test]
fn reeditar_venta_finalizada() {
    let mut v = nueva();
    venta_agregar_item(&mut v, 10, 1, 500, 200).unwrap();
    venta_finalizar(&mut v, &ctx(), vec![pago(MedioPago::Efectivo, 500)]).unwrap();
    let items = vec![
        VentaEditarItemInput {
            id_producto: 10,
            cantidad: 2,
            precio_unitario: 300,
            costo_unitario_en_venta: Some(200),
            fuente_precio: FuentePrecio::Manual,
        },
        VentaEditarItemInput {
            id_producto: 12,
            cantidad: 1,
            precio_unitario: 50,
            costo_unitario_en_venta: Some(20),
            fuente_precio: FuentePrecio::Catalogo,
        },
    ];
    let movs = venta_admin_editar_guardar(&mut v, &ctx(), items, vec![pago(MedioPago::Debito, 650)]).unwrap();
    assert_eq!(v.estado, EstadoVenta::Finalizada);
    assert_eq!(v.total, 650);
    assert_eq!(v.items.len(), 2);
    assert_eq!(v.pagos[0].monto, 650);
    assert_eq!(movs.len(), 2);
    assert_eq!(movs[0].total_costo, 400);
}

#[test]
fn reeditar_fallida_deja_finalizada() {
    let mut v = nueva();
    venta_agregar_item(&mut v, 10, 1, 500, 200).unwrap();
    venta_finalizar(&mut v, &ctx(), vec![pago(MedioPago::Efectivo, 500)]).unwrap();
    let items = vec![VentaEditarItemInput {
        id_producto: 10,
        cantidad: 2,
        precio_unitario: 300,
        costo_unitario_en_venta: Some(200),
        fuente_precio: FuentePrecio::Manual,
    }];
    let r = venta_admin_editar_guardar(&mut v, &ctx(), items, vec![pago(MedioPago::Debito, 500)]);
    assert_eq!(r.unwrap_err(), LedgerError::PaymentMismatch { pagado: 500, total: 600 });
    assert_eq!(v.estado, EstadoVenta::Finalizada);
    assert_eq!(v.total, 500);
    assert_eq!(v.items[0].cantidad, 1);
    let mut borrador = nueva();
    assert_eq!(
        venta_admin_editar_guardar(&mut borrador, &ctx(), vec![], vec![]).unwrap_err(),
        LedgerError::InvalidStateTransition { estado: EstadoVenta::EnCurso }
    );
}

#[test]
fn promo_reemplaza_linea_de_catalogo() {
    let mut v = nueva();
    venta_agregar_item(&mut v, 7, 2, 150, 80).unwrap();
    assert_eq!(v.total, 300);
    aplicar_promo_combo(&mut v, &combo(1, 0, 0), &vec![item(7, 2, 150)], 250, "g1".to_string()).unwrap();
    assert_eq!(v.total, 250);
    assert_eq!(v.items.len(), 1);
    let l = &v.items[0];
    assert_eq!(l.fuente_precio, FuentePrecio::Promo);
    assert_eq!(l.cantidad, 2);
    assert_eq!(l.precio_unitario, 125);
    assert_eq!(l.subtotal, 250);
    assert_eq!(l.costo_unitario_en_venta, 80);
    assert_eq!(l.promo_combo_id, Some(9));
    assert_eq!(l.promo_grupo_id, Some("g1".to_string()));
    assert_eq!(l.precio_lista, 150);
    assert_eq!(l.promo_precio_total, Some(250));
}

#[test]
fn promo_dos_precios_y_sobrante() {
    let mut v = nueva();
    venta_agregar_item(&mut v, 1, 5, 100, 50).unwrap();
    venta_agregar_item(&mut v, 2, 1, 200, 90).unwrap();
    aplicar_promo_combo(&mut v, &combo(1, 0, 0), &vec![item(1, 3, 100), item(2, 1, 200)], 401, "g".to_string())
        .unwrap();
    let total_promo: i64 = v.items.iter().filter(|l| l.fuente_precio == FuentePrecio::Promo).map(|l| l.subtotal).sum();
    assert_eq!(total_promo, 401);
    assert_eq!(v.total, 200 + 401);
    for l in &v.items {
        assert_eq!(l.subtotal, l.cantidad * l.precio_unitario);
    }
    let resto = v.items.iter().find(|l| l.fuente_precio == FuentePrecio::Catalogo).unwrap();
    assert_eq!(resto.cantidad, 2);
    let promo_uno: Vec<_> = v.items.iter().filter(|l| l.fuente_precio == FuentePrecio::Promo && l.id_producto == 1).collect();
    assert_eq!(promo_uno.iter().map(|l| l.subtotal).sum::<i64>(), 241);
    assert_eq!(promo_uno.len(), 2);
    assert!(promo_uno.iter().all(|l| l.precio_lista == 100 && l.promo_precio_total == Some(401)));
    let grupos: Vec<_> = v.items.iter().filter(|l| l.fuente_precio == FuentePrecio::Promo).map(|l| l.promo_grupo_id.clone()).collect();
    assert!(grupos.iter().all(|g| *g == Some("g".to_string())));
    assert_eq!(resto.precio_lista, 100);
    assert_eq!(resto.promo_precio_total, None);
}

#[test]
fn promo_cantidad_insuficiente() {
    let mut v = nueva();
    venta_agregar_item(&mut v, 7, 1, 150, 80).unwrap();
    let r = aplicar_promo_combo(&mut v, &combo(1, 0, 0), &vec![item(7, 2, 150)], 250, "g".to_string());
    assert_eq!(r, Err(LedgerError::InsufficientQuantity { id_producto: 7, requerida: 2 }));
    assert_eq!(v.total, 150);
    assert_eq!(v.items.len(), 1);
    assert_eq!(v.items[0].fuente_precio, FuentePrecio::Catalogo);
}

#[test]
fn promo_validaciones_previas() {
    let mut v = nueva();
    venta_agregar_item(&mut v, 7, 2, 150, 80).unwrap();
    let items = vec![item(7, 2, 150)];
    assert_eq!(aplicar_promo_combo(&mut v, &combo(0, 0, 0), &items, 250, "g".to_string()), Err(LedgerError::InvalidInput));
    assert_eq!(aplicar_promo_combo(&mut v, &combo(1, 260, 0), &items, 250, "g".to_string()), Err(LedgerError::InvalidInput));
    assert_eq!(aplicar_promo_combo(&mut v, &combo(1, 0, 0), &vec![], 250, "g".to_string()), Err(LedgerError::InvalidInput));
    assert_eq!(aplicar_promo_combo(&mut v, &combo(1, 0, 0), &vec![item(7, 2, 0)], 250, "g".to_string()), Err(LedgerError::InvalidInput));
    assert_eq!(v.total, 300);
}

#[test]
fn promo_con_grupo_nuevo() {
    let mut v = nueva();
    venta_agregar_item(&mut v, 7, 2, 150, 80).unwrap();
    let grupo = venta_aplicar_promo_combo_db(&mut v, &combo(1, 0, 0), &vec![item(7, 2, 150)], 250).unwrap();
    assert_eq!(grupo.len(), 36);
    assert_eq!(v.items[0].promo_grupo_id, Some(grupo));
    assert_eq!(v.total, 250);
}

#[test]
fn promo_precio_del_combo_por_defecto() {
    let mut v = nueva();
    venta_agregar_item(&mut v, 7, 2, 150, 80).unwrap();
    venta_aplicar_promo_combo(&mut v, &combo(1, 0, 260), &vec![item(7, 2, 150)], 0).unwrap();
    assert_eq!(v.total, 260);
    let mut w = nueva();
    venta_agregar_item(&mut w, 7, 2, 150, 80).unwrap();
    assert_eq!(
        venta_aplicar_promo_combo(&mut w, &combo(1, 0, 0), &vec![item(7, 2, 150)], 0),
        Err(LedgerError::InvalidInput)
    );
    assert_eq!(
        venta_aplicar_promo_combo(&mut w, &combo(1, 0, 260), &vec![item(7, 2, 150)], -1),
        Err(LedgerError::InvalidInput)
    );
}

#[test]
fn consistencia_de_venta_leida() {
    let mut v = nueva();
    venta_agregar_item(&mut v, 10, 2, 150, 90).unwrap();
    assert!(v.es_consistente());
    v.total = 301;
    assert!(!v.es_consistente());
    v.total = 300;
    v.items[0].subtotal = 299;
    assert!(!v.es_consistente());
    v.items[0].subtotal = 300;
    v.siguiente_id_item = v.items[0].id_item;
    assert!(!v.es_consistente());
}

#[test]
fn registro_de_venta_con_costo_de_lineas() {
    let mut v = nueva();
    venta_agregar_item(&mut v, 10, 2, 150, 90).unwrap();
    venta_agregar_item(&mut v, 11, 3, 40, 15).unwrap();
    let fecha = Fecha { anio: 2024, mes: 5, dia: 1 };
    let r = venta_registro(&v, fecha).unwrap();
    assert_eq!(r.costo_mercaderia, 2 * 90 + 3 * 15);
    assert_eq!(r.total, 420);
    assert_eq!(r.fecha, fecha);
    assert_eq!(r.id_usuario, 7);
    assert_eq!(r.estado, EstadoVenta::EnCurso);
    let mut w = nueva();
    venta_agregar_item(&mut w, 10, 2, 1, i64::MAX).unwrap();
    assert!(venta_registro(&w, fecha).is_none());
}
