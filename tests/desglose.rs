use pos_core::desglose::{gastos_por_categoria, ingresos_por_medio, PagoRegistro};
use pos_core::error::{EstadoVenta, LedgerError};
use pos_core::fecha::{Agrupacion, Fecha};
use pos_core::pnl::{GastoRegistro, PnlReporteInput, TipoGasto};
use pos_core::texto::menor_texto;
use pos_core::venta::MedioPago;

fn f(anio: i64, mes: i64, dia: i64) -> Fecha {
    Fecha { anio, mes, dia }
}

fn pedido() -> PnlReporteInput {
    PnlReporteInput {
        desde: f(2024, 3, 1),
        hasta: f(2024, 3, 31),
        group_by: Agrupacion::Mes,
        id_usuario: None,
        incluir_no_finalizadas: false,
    }
}

fn pago(dia: i64, estado: EstadoVenta, medio: MedioPago, monto: i64) -> PagoRegistro {
    PagoRegistro { fecha: f(2024, 3, dia), id_usuario: 7, estado, medio, monto }
}

fn gasto(fecha: Fecha, categoria: &str, tipo: TipoGasto, monto: i64) -> GastoRegistro {
    GastoRegistro { fecha, categoria: categoria.to_string(), tipo, monto }
}

#[test]
fn ingresos_por_medio_en_orden_de_nombre() {
    let pagos = vec![
        pago(2, EstadoVenta::Finalizada, MedioPago::Transferencia, 100),
        pago(3, EstadoVenta::Finalizada, MedioPago::Efectivo, 50),
        pago(4, EstadoVenta::Finalizada, MedioPago::Efectivo, 25),
        pago(5, EstadoVenta::EnCurso, MedioPago::Credito, 999),
        PagoRegistro { fecha: f(2024, 4, 1), id_usuario: 7, estado: EstadoVenta::Finalizada, medio: MedioPago::Debito, monto: 1 },
    ];
    let r = ingresos_por_medio(&pedido(), &pagos).unwrap();
    assert_eq!(r, vec![(MedioPago::Efectivo, 75), (MedioPago::Transferencia, 100)]);
    let mut q = pedido();
    q.incluir_no_finalizadas = true;
    let r = ingresos_por_medio(&q, &pagos).unwrap();
    assert_eq!(r, vec![(MedioPago::Credito, 999), (MedioPago::Efectivo, 75), (MedioPago::Transferencia, 100)]);
    q.id_usuario = Some(8);
    assert_eq!(ingresos_por_medio(&q, &pagos).unwrap(), vec![]);
}

#[test]
fn ingresos_por_medio_desborde() {
    let pagos = vec![
        pago(2, EstadoVenta::Finalizada, MedioPago::Efectivo, i64::MAX),
        pago(3, EstadoVenta::Finalizada, MedioPago::Efectivo, 1),
    ];
    assert_eq!(ingresos_por_medio(&pedido(), &pagos), Err(LedgerError::InvalidInput));
}

#[test]
fn gastos_por_categoria_ordenados() {
    let gastos = vec![
        gasto(f(2024, 3, 2), "luz", TipoGasto::Egreso, 300),
        gasto(f(2024, 3, 5), "alquiler", TipoGasto::Egreso, 1000),
        gasto(f(2024, 3, 9), "luz", TipoGasto::Ingreso, 20),
        gasto(f(2024, 3, 10), "Banco", TipoGasto::Ingreso, 7),
        gasto(f(2024, 2, 28), "agua", TipoGasto::Egreso, 5),
    ];
    let r = gastos_por_categoria(&pedido(), &gastos).unwrap();
    let nombres: Vec<&str> = r.iter().map(|c| c.categoria.as_str()).collect();
    assert_eq!(nombres, vec!["Banco", "alquiler", "luz"]);
    assert_eq!((r[2].ingresos, r[2].egresos, r[2].neto), (20, 300, -280));
    assert_eq!((r[1].ingresos, r[1].egresos, r[1].neto), (0, 1000, -1000));
    assert_eq!(r[0].neto, 7);
}

#[test]
fn gastos_por_categoria_fecha_invalida() {
    let gastos = vec![gasto(f(2024, 2, 30), "luz", TipoGasto::Egreso, 1)];
    assert!(matches!(gastos_por_categoria(&pedido(), &gastos), Err(LedgerError::InvalidInput)));
}

#[test]
fn orden_de_textos() {
    assert!(menor_texto("alquiler", "luz"));
    assert!(menor_texto("luz", "luzz"));
    assert!(!menor_texto("luz", "luz"));
    assert!(menor_texto("Banco", "alquiler"));
    assert!(!menor_texto("b", "a"));
}

#[test]
fn desgloses_repetidos_identicos() {
    let gastos = vec![
        gasto(f(2024, 3, 2), "luz", TipoGasto::Egreso, 300),
        gasto(f(2024, 3, 5), "alquiler", TipoGasto::Egreso, 1000),
    ];
    let a = gastos_por_categoria(&pedido(), &gastos).unwrap();
    let b = gastos_por_categoria(&pedido(), &gastos).unwrap();
    let lee = |v: &Vec<pos_core::pnl_modelo::PnlGastoCategoria>| {
        v.iter().map(|c| (c.categoria.clone(), c.ingresos, c.egresos, c.neto)).collect::<Vec<_>>()
    };
    assert_eq!(lee(&a), lee(&b));
    let pagos = vec![pago(2, EstadoVenta::Finalizada, MedioPago::Debito, 10)];
    assert_eq!(ingresos_por_medio(&pedido(), &pagos), ingresos_por_medio(&pedido(), &pagos));
}
